//! The deletion reconciler: entries of the mirror whose counterpart in the
//! work tree is gone are removed.

use vstd::prelude::*;
use crate::action::{
    action_views, lemma_removals_shrink, run, FileTree, FsAction, FsActionView,
};
use crate::error::{EntryKind, IoOutcome, SyncError};
use crate::path::{under, TreePath};
use crate::shutdown::{LoopControl, ShutdownFlag, RECONCILE_INTERVAL_SECS};

verus! {

/// Whether something exists at a path.
#[derive(Clone, Copy, Debug, PartialEq, Eq, Structural)]
pub enum Presence {
    Present,
    Absent,
    /// The question could not be answered.
    Unknown,
}

/// An entry of the mirror, with what a scan found out about it.
#[derive(Clone, Debug, PartialEq, Eq)]
pub struct MirrorSighting {
    /// The entry's path in the mirror.
    pub path: TreePath,
    /// The entry's kind; `None` if the entry vanished before it was read.
    pub kind: Option<EntryKind>,
    /// Whether the entry is still in the mirror.
    pub in_backup: Presence,
    /// Whether the entry's counterpart is in the work tree.
    pub in_work: Presence,
}

/// What is to be done about one entry of the mirror.
///
/// Only existence counts, never a modification time. An entry that is gone,
/// or whose counterpart exists, is left alone. One whose counterpart is gone
/// is removed: a file or link by itself, a directory with all that it holds.
pub open spec fn verdict(
    entry: Seq<Seq<u8>>,
    backup_dir: Seq<Seq<u8>>,
    kind: Option<EntryKind>,
    in_backup: Presence,
    in_work: Presence,
) -> Result<Option<FsActionView>, SyncError> {
    if in_backup == Presence::Unknown {
        Err(SyncError::IoError)
    } else if in_backup == Presence::Absent {
        Ok(None)
    } else if !under(entry, backup_dir) {
        Err(SyncError::PathOutsideRoot)
    } else if in_work == Presence::Unknown {
        Err(SyncError::IoError)
    } else if in_work == Presence::Present {
        Ok(None)
    } else {
        match kind {
            None => Ok(None),
            Some(EntryKind::File) | Some(EntryKind::Symlink) => Ok(
                Some(FsActionView::RemoveFile(entry)),
            ),
            Some(EntryKind::Directory) => Ok(Some(FsActionView::RemoveDirAll(entry))),
            Some(EntryKind::Other) => Err(SyncError::UnhandledEntryKind),
        }
    }
}

/// The verdict on a sighting.
pub open spec fn sighting_verdict(sighting: MirrorSighting, backup_dir: Seq<Seq<u8>>) -> Result<
    Option<FsActionView>,
    SyncError,
> {
    verdict(sighting.path@, backup_dir, sighting.kind, sighting.in_backup, sighting.in_work)
}

/// `out` is `want`, with the operation taken by its view.
pub open spec fn agrees(
    out: Result<Option<FsAction>, SyncError>,
    want: Result<Option<FsActionView>, SyncError>,
) -> bool {
    match want {
        Ok(Some(action)) => out is Ok && out->Ok_0 is Some && out->Ok_0->Some_0@ == action,
        Ok(None) => out is Ok && out->Ok_0 is None,
        Err(e) => out is Err && out->Err_0 == e,
    }
}

/// Decides what is to be done about one entry of the mirror.
pub fn reconcile_entry(
    entry: &TreePath,
    backup_dir: &TreePath,
    kind: Option<EntryKind>,
    in_backup: Presence,
    in_work: Presence,
) -> (out: Result<Option<FsAction>, SyncError>)
    ensures
        agrees(out, verdict(entry@, backup_dir@, kind, in_backup, in_work)),
{
    match in_backup {
        Presence::Unknown => { return Err(SyncError::IoError); },
        Presence::Absent => { return Ok(None); },
        Presence::Present => {},
    }
    if !entry.is_under(backup_dir) {
        return Err(SyncError::PathOutsideRoot);
    }
    match in_work {
        Presence::Unknown => { return Err(SyncError::IoError); },
        Presence::Present => { return Ok(None); },
        Presence::Absent => {},
    }
    match kind {
        None => Ok(None),
        Some(EntryKind::File) => Ok(Some(FsAction::RemoveFile(entry.duplicate()))),
        Some(EntryKind::Symlink) => Ok(Some(FsAction::RemoveFile(entry.duplicate()))),
        Some(EntryKind::Directory) => Ok(Some(FsAction::RemoveDirAll(entry.duplicate()))),
        Some(EntryKind::Other) => Err(SyncError::UnhandledEntryKind),
    }
}

/// What one scan of the mirror asks for.
#[derive(Clone, Debug, PartialEq, Eq)]
pub struct Reconciliation {
    /// The removals, in the order of the entries.
    pub removals: Vec<FsAction>,
    /// The entries about which nothing could be found out. They are left
    /// for the next scan.
    pub unreadable: Vec<TreePath>,
}

/// The removals that a scan with the given sightings asks for, or the first
/// broken assumption that stops it. An entry that could not be read stops
/// nothing.
pub open spec fn scan_removals(sightings: Seq<MirrorSighting>, backup_dir: Seq<Seq<u8>>) -> Result<
    Seq<FsActionView>,
    SyncError,
>
    decreases sightings.len(),
{
    if sightings.len() == 0 {
        Ok(Seq::empty())
    } else {
        match scan_removals(sightings.drop_last(), backup_dir) {
            Err(e) => Err(e),
            Ok(removals) => match sighting_verdict(sightings.last(), backup_dir) {
                Ok(Some(action)) => Ok(removals.push(action)),
                Ok(None) => Ok(removals),
                Err(SyncError::IoError) => Ok(removals),
                Err(e) => Err(e),
            },
        }
    }
}

/// The entries of a scan that could not be read, in order.
pub open spec fn scan_unreadable(sightings: Seq<MirrorSighting>, backup_dir: Seq<Seq<u8>>) -> Seq<
    Seq<Seq<u8>>,
>
    decreases sightings.len(),
{
    if sightings.len() == 0 {
        Seq::empty()
    } else {
        let before = scan_unreadable(sightings.drop_last(), backup_dir);
        if sighting_verdict(sightings.last(), backup_dir) == Err::<
            Option<FsActionView>,
            SyncError,
        >(SyncError::IoError) {
            before.push(sightings.last().path@)
        } else {
            before
        }
    }
}

/// Plans one scan of the mirror.
///
/// Fails at the first entry that is of no known kind or lies outside the
/// mirror. Otherwise it lists what to remove and which entries could not be
/// read.
pub fn delete_files(sightings: &Vec<MirrorSighting>, backup_dir: &TreePath) -> (out: Result<
    Reconciliation,
    SyncError,
>)
    ensures
        match scan_removals(sightings@, backup_dir@) {
            Ok(removals) => {
                &&& out is Ok
                &&& action_views(out->Ok_0.removals@) == removals
                &&& Seq::new(
                    out->Ok_0.unreadable@.len(),
                    |i: int| out->Ok_0.unreadable@[i]@,
                ) == scan_unreadable(sightings@, backup_dir@)
            },
            Err(e) => out is Err && out->Err_0 == e,
        },
{
    let mut removals: Vec<FsAction> = Vec::new();
    let mut unreadable: Vec<TreePath> = Vec::new();
    let mut i: usize = 0;
    proof {
        assert(action_views(removals@) == Seq::<FsActionView>::empty());
        assert(Seq::new(unreadable@.len(), |k: int| unreadable@[k]@) == Seq::<
            Seq<Seq<u8>>,
        >::empty());
    }
    while i < sightings.len()
        invariant
            i <= sightings.len(),
            scan_removals(sightings@.take(i as int), backup_dir@) == Ok::<
                Seq<FsActionView>,
                SyncError,
            >(action_views(removals@)),
            Seq::new(unreadable@.len(), |k: int| unreadable@[k]@) == scan_unreadable(
                sightings@.take(i as int),
                backup_dir@,
            ),
        decreases sightings.len() - i,
    {
        let sighting = &sightings[i];
        let ghost before = action_views(removals@);
        let ghost unread_before = Seq::new(unreadable@.len(), |k: int| unreadable@[k]@);
        proof {
            assert(sightings@.take(i + 1).drop_last() == sightings@.take(i as int));
            assert(sightings@.take(i + 1).last() == sightings@[i as int]);
        }
        match reconcile_entry(
            &sighting.path,
            backup_dir,
            sighting.kind,
            sighting.in_backup,
            sighting.in_work,
        ) {
            Ok(Some(action)) => {
                removals.push(action);
                assert(action_views(removals@) == before.push(action@));
            },
            Ok(None) => {},
            Err(SyncError::IoError) => {
                unreadable.push(sighting.path.duplicate());
                assert(Seq::new(unreadable@.len(), |k: int| unreadable@[k]@)
                    == unread_before.push(sighting.path@));
            },
            Err(e) => {
                proof {
                    lemma_scan_error_sticks(sightings@, backup_dir@, i + 1);
                }
                return Err(e);
            },
        }
        i += 1;
    }
    assert(sightings@.take(sightings.len() as int) == sightings@);
    Ok(Reconciliation { removals, unreadable })
}

/// A scan that is stopped by its first `n` sightings is stopped by all of
/// them, for the same reason.
pub proof fn lemma_scan_error_sticks(
    sightings: Seq<MirrorSighting>,
    backup_dir: Seq<Seq<u8>>,
    n: int,
)
    requires
        0 <= n <= sightings.len(),
        scan_removals(sightings.take(n), backup_dir) is Err,
    ensures
        scan_removals(sightings, backup_dir) == scan_removals(sightings.take(n), backup_dir),
    decreases sightings.len() - n,
{
    if n == sightings.len() {
        assert(sightings.take(n) == sightings);
    } else {
        assert(sightings.take(n + 1).drop_last() == sightings.take(n));
        lemma_scan_error_sticks(sightings, backup_dir, n + 1);
    }
}

/// What the reconciler makes of a removal's outcome: an entry that was gone
/// already is as good as removed.
pub fn removal_reported(outcome: IoOutcome) -> (out: Result<(), SyncError>)
    ensures
        outcome == IoOutcome::Failed ==> out == Err::<(), SyncError>(SyncError::CopyFailure),
        outcome != IoOutcome::Failed ==> out == Ok::<(), SyncError>(()),
{
    match outcome {
        IoOutcome::Failed => Err(SyncError::CopyFailure),
        _ => Ok(()),
    }
}

/// What the reconciler does after a scan: it returns once the flag is
/// raised, and sleeps for the reconcile interval otherwise.
pub fn scan_finished(flag: &ShutdownFlag) -> (control: LoopControl)
    ensures
        flag.raised() ==> control == LoopControl::Stop,
        !flag.raised() ==> control == LoopControl::SleepSecs(RECONCILE_INTERVAL_SECS),
{
    flag.end_of_round(RECONCILE_INTERVAL_SECS)
}

/// Whether a sighting shows an entry whose counterpart in the work tree is
/// gone, and which can be removed.
pub open spec fn counterpart_gone(sighting: MirrorSighting, backup_dir: Seq<Seq<u8>>) -> bool {
    &&& sighting.in_backup == Presence::Present
    &&& sighting.in_work == Presence::Absent
    &&& under(sighting.path@, backup_dir)
    &&& sighting.kind is Some
    &&& sighting.kind != Some(EntryKind::Other)
}

/// A scan plans nothing but removals.
pub proof fn lemma_scan_plans_removals(sightings: Seq<MirrorSighting>, backup_dir: Seq<Seq<u8>>)
    requires
        scan_removals(sightings, backup_dir) is Ok,
    ensures
        forall|i: int|
            0 <= i < scan_removals(sightings, backup_dir)->Ok_0.len() ==> (#[trigger] scan_removals(
                sightings,
                backup_dir,
            )->Ok_0[i]).is_removal(),
    decreases sightings.len(),
{
    if sightings.len() > 0 {
        lemma_scan_plans_removals(sightings.drop_last(), backup_dir);
    }
}

/// The removals of a scan add no file and change none.
pub proof fn lemma_scan_only_removes(
    sightings: Seq<MirrorSighting>,
    backup_dir: Seq<Seq<u8>>,
    tree: FileTree,
)
    requires
        scan_removals(sightings, backup_dir) is Ok,
    ensures
        forall|q: Seq<Seq<u8>>| #[trigger]
            run(scan_removals(sightings, backup_dir)->Ok_0, tree).contains_key(q)
                ==> tree.contains_key(q) && run(
                scan_removals(sightings, backup_dir)->Ok_0,
                tree,
            )[q] == tree[q],
{
    lemma_scan_plans_removals(sightings, backup_dir);
    lemma_removals_shrink(scan_removals(sightings, backup_dir)->Ok_0, tree);
}

/// An entry of the mirror whose counterpart in the work tree is gone does
/// not outlast the scan that sighted it: once the removals of the scan are
/// carried out, a file or link is gone, and so is every file in a directory.
pub proof fn lemma_deletion_is_propagated(
    sightings: Seq<MirrorSighting>,
    backup_dir: Seq<Seq<u8>>,
    i: int,
    tree: FileTree,
)
    requires
        scan_removals(sightings, backup_dir) is Ok,
        0 <= i < sightings.len(),
        counterpart_gone(sightings[i], backup_dir),
    ensures
        !run(scan_removals(sightings, backup_dir)->Ok_0, tree).contains_key(sightings[i].path@),
        sightings[i].kind == Some(EntryKind::Directory) ==> forall|q: Seq<Seq<u8>>|
            under(q, sightings[i].path@) ==> !#[trigger] run(
                scan_removals(sightings, backup_dir)->Ok_0,
                tree,
            ).contains_key(q),
    decreases sightings.len(),
{
    let front = sightings.drop_last();
    let before = scan_removals(front, backup_dir)->Ok_0;
    let entry = sightings[i].path@;
    assert(sightings[sightings.len() - 1] == sightings.last());
    assert(under(entry, entry)) by {
        assert(entry.subrange(0, entry.len() as int) == entry);
    }
    if i < sightings.len() - 1 {
        assert(front[i] == sightings[i]);
        lemma_deletion_is_propagated(front, backup_dir, i, tree);
    }
    match sighting_verdict(sightings.last(), backup_dir) {
        Ok(Some(action)) => {
            assert(before.push(action).drop_last() == before);
        },
        _ => {},
    }
}

} // verus!
