//! The initializer: the target tree is cleared and filled again from the
//! authoritative tree.

use vstd::prelude::*;
use crate::action::{action_views, run, FileTree, FsAction, FsActionView};
use crate::copy::{copy_to_dst, planned_copy, CopyEnd};
use crate::error::{EntryKind, IoOutcome, SyncError};
use crate::fingerprint::{digests, listed_contents, HashedFile};
use crate::path::{rerooted, translate, under, TreePath};
use crate::truth::{resolution, Policy, Resolution, Side};

verus! {

/// An entry that a walk of a tree came upon.
#[derive(Clone, Debug, PartialEq, Eq)]
pub struct WalkEntry {
    pub path: TreePath,
    /// The entry's kind, where the walk could tell it.
    pub kind: Option<EntryKind>,
}

/// The paths of the regular files among `walk`, in order.
pub open spec fn regular_files(walk: Seq<WalkEntry>) -> Seq<Seq<Seq<u8>>>
    decreases walk.len(),
{
    if walk.len() == 0 {
        Seq::empty()
    } else if walk.last().kind == Some(EntryKind::File) {
        regular_files(walk.drop_last()).push(walk.last().path@)
    } else {
        regular_files(walk.drop_last())
    }
}

/// The paths of a list, each by its view.
pub open spec fn path_views(paths: Seq<TreePath>) -> Seq<Seq<Seq<u8>>> {
    Seq::new(paths.len(), |i: int| paths[i]@)
}

/// Keeps the regular files of a walk: directories, links and entries of
/// unknown kind are left out.
pub fn recursive_dir(walk: &Vec<WalkEntry>) -> (files: Vec<TreePath>)
    ensures
        path_views(files@) == regular_files(walk@),
{
    let mut files: Vec<TreePath> = Vec::new();
    let mut i: usize = 0;
    assert(path_views(files@) == Seq::<Seq<Seq<u8>>>::empty());
    while i < walk.len()
        invariant
            i <= walk.len(),
            path_views(files@) == regular_files(walk@.take(i as int)),
        decreases walk.len() - i,
    {
        let ghost before = path_views(files@);
        proof {
            assert(walk@.take(i + 1).drop_last() == walk@.take(i as int));
            assert(walk@.take(i + 1).last() == walk@[i as int]);
        }
        match walk[i].kind {
            Some(EntryKind::File) => {
                files.push(walk[i].path.duplicate());
                assert(path_views(files@) == before.push(walk@[i as int].path@));
            },
            _ => {},
        }
        i += 1;
    }
    assert(walk@.take(walk.len() as int) == walk@);
    files
}

/// `path` lies under `root` and is not `root` itself.
pub open spec fn below(path: Seq<Seq<u8>>, root: Seq<Seq<u8>>) -> bool {
    under(path, root) && path.len() > root.len()
}

/// How one entry of the target is cleared away: a directory with all that it
/// holds, a regular file by itself. Anything else is not touched but
/// reported, and so is an entry that does not lie below the target root.
pub open spec fn clearing(entry: WalkEntry, target: Seq<Seq<u8>>) -> Result<
    FsActionView,
    SyncError,
> {
    if !below(entry.path@, target) {
        Err(SyncError::PathOutsideRoot)
    } else {
        match entry.kind {
            Some(EntryKind::Directory) => Ok(FsActionView::RemoveDirAll(entry.path@)),
            Some(EntryKind::File) => Ok(FsActionView::RemoveFile(entry.path@)),
            _ => Err(SyncError::UnhandledEntryKind),
        }
    }
}

/// The operations that clear the target, or the error of the first entry
/// that cannot be cleared away.
pub open spec fn clear_plan(entries: Seq<WalkEntry>, target: Seq<Seq<u8>>) -> Result<
    Seq<FsActionView>,
    SyncError,
>
    decreases entries.len(),
{
    if entries.len() == 0 {
        Ok(Seq::empty())
    } else {
        match clear_plan(entries.drop_last(), target) {
            Err(e) => Err(e),
            Ok(actions) => match clearing(entries.last(), target) {
                Ok(action) => Ok(actions.push(action)),
                Err(e) => Err(e),
            },
        }
    }
}

/// A plan that is stopped by its first `n` entries is stopped by all of
/// them, for the same reason.
pub proof fn lemma_clear_error_sticks(entries: Seq<WalkEntry>, target: Seq<Seq<u8>>, n: int)
    requires
        0 <= n <= entries.len(),
        clear_plan(entries.take(n), target) is Err,
    ensures
        clear_plan(entries, target) == clear_plan(entries.take(n), target),
    decreases entries.len() - n,
{
    if n == entries.len() {
        assert(entries.take(n) == entries);
    } else {
        assert(entries.take(n + 1).drop_last() == entries.take(n));
        lemma_clear_error_sticks(entries, target, n + 1);
    }
}

/// Decides how one entry of the target is cleared away.
pub fn clear_entry(entry: &WalkEntry, target: &TreePath) -> (out: Result<FsAction, SyncError>)
    ensures
        match clearing(*entry, target@) {
            Ok(action) => out is Ok && out->Ok_0@ == action,
            Err(e) => out is Err && out->Err_0 == e,
        },
{
    if !entry.path.is_under(target) || entry.path.depth() <= target.depth() {
        return Err(SyncError::PathOutsideRoot);
    }
    match entry.kind {
        Some(EntryKind::Directory) => Ok(FsAction::RemoveDirAll(entry.path.duplicate())),
        Some(EntryKind::File) => Ok(FsAction::RemoveFile(entry.path.duplicate())),
        _ => Err(SyncError::UnhandledEntryKind),
    }
}

/// Plans the clearing of the target from its top-level entries.
///
/// Fails, with nothing planned, at the first entry that is neither a
/// directory nor a regular file, or that does not lie below `target`.
pub fn plan_clear(entries: &Vec<WalkEntry>, target: &TreePath) -> (out: Result<
    Vec<FsAction>,
    SyncError,
>)
    ensures
        match clear_plan(entries@, target@) {
            Ok(actions) => out is Ok && action_views(out->Ok_0@) == actions,
            Err(e) => out is Err && out->Err_0 == e,
        },
{
    let mut actions: Vec<FsAction> = Vec::new();
    let mut i: usize = 0;
    assert(action_views(actions@) == Seq::<FsActionView>::empty());
    while i < entries.len()
        invariant
            i <= entries.len(),
            clear_plan(entries@.take(i as int), target@) == Ok::<Seq<FsActionView>, SyncError>(
                action_views(actions@),
            ),
        decreases entries.len() - i,
    {
        let ghost before = action_views(actions@);
        proof {
            assert(entries@.take(i + 1).drop_last() == entries@.take(i as int));
            assert(entries@.take(i + 1).last() == entries@[i as int]);
        }
        match clear_entry(&entries[i], target) {
            Ok(action) => {
                actions.push(action);
                assert(action_views(actions@) == before.push(action@));
            },
            Err(e) => {
                proof {
                    lemma_clear_error_sticks(entries@, target@, i + 1);
                }
                return Err(e);
            },
        }
        i += 1;
    }
    assert(entries@.take(entries.len() as int) == entries@);
    Ok(actions)
}

/// What one entry of the authoritative tree asks for: a regular file or a
/// link is copied to its place in the target, a directory is created there,
/// and anything else is passed over.
pub open spec fn populating(
    entry: WalkEntry,
    authoritative: Seq<Seq<u8>>,
    target: Seq<Seq<u8>>,
) -> Result<Option<FsActionView>, SyncError> {
    match entry.kind {
        Some(EntryKind::File) | Some(EntryKind::Symlink) => if under(entry.path@, authoritative) {
            Ok(Some(FsActionView::Copy(planned_copy(entry.path@, authoritative, target))))
        } else {
            Err(SyncError::PathOutsideRoot)
        },
        Some(EntryKind::Directory) => if under(entry.path@, authoritative) {
            Ok(Some(FsActionView::CreateDirAll(rerooted(entry.path@, authoritative, target))))
        } else {
            Err(SyncError::PathOutsideRoot)
        },
        _ => Ok(None),
    }
}

/// The operations that fill the target, or the error of the first entry that
/// stops the plan.
pub open spec fn populate_plan(
    walk: Seq<WalkEntry>,
    authoritative: Seq<Seq<u8>>,
    target: Seq<Seq<u8>>,
) -> Result<Seq<FsActionView>, SyncError>
    decreases walk.len(),
{
    if walk.len() == 0 {
        Ok(Seq::empty())
    } else {
        match populate_plan(walk.drop_last(), authoritative, target) {
            Err(e) => Err(e),
            Ok(actions) => match populating(walk.last(), authoritative, target) {
                Ok(Some(action)) => Ok(actions.push(action)),
                Ok(None) => Ok(actions),
                Err(e) => Err(e),
            },
        }
    }
}

/// A plan that is stopped by its first `n` entries is stopped by all of
/// them, for the same reason.
pub proof fn lemma_populate_error_sticks(
    walk: Seq<WalkEntry>,
    authoritative: Seq<Seq<u8>>,
    target: Seq<Seq<u8>>,
    n: int,
)
    requires
        0 <= n <= walk.len(),
        populate_plan(walk.take(n), authoritative, target) is Err,
    ensures
        populate_plan(walk, authoritative, target) == populate_plan(
            walk.take(n),
            authoritative,
            target,
        ),
    decreases walk.len() - n,
{
    if n == walk.len() {
        assert(walk.take(n) == walk);
    } else {
        assert(walk.take(n + 1).drop_last() == walk.take(n));
        lemma_populate_error_sticks(walk, authoritative, target, n + 1);
    }
}

/// Decides what one entry of the authoritative tree asks for.
pub fn populate_entry(entry: &WalkEntry, authoritative: &TreePath, target: &TreePath) -> (out:
    Result<Option<FsAction>, SyncError>)
    ensures
        match populating(*entry, authoritative@, target@) {
            Ok(Some(action)) => out is Ok && out->Ok_0 is Some && out->Ok_0->Some_0@ == action,
            Ok(None) => out is Ok && out->Ok_0 is None,
            Err(e) => out is Err && out->Err_0 == e,
        },
{
    match entry.kind {
        Some(EntryKind::File) | Some(EntryKind::Symlink) => match copy_to_dst(
            &entry.path,
            authoritative,
            target,
        ) {
            Ok(plan) => Ok(Some(FsAction::Copy(plan))),
            Err(e) => Err(e),
        },
        Some(EntryKind::Directory) => match translate(&entry.path, authoritative, target) {
            Ok(directory) => Ok(Some(FsAction::CreateDirAll(directory))),
            Err(e) => Err(e),
        },
        _ => Ok(None),
    }
}

/// Plans the filling of the target from a walk of the authoritative tree.
///
/// Fails, with nothing planned, at the first file, link or directory that
/// does not lie under `authoritative`.
pub fn plan_populate(walk: &Vec<WalkEntry>, authoritative: &TreePath, target: &TreePath) -> (out:
    Result<Vec<FsAction>, SyncError>)
    ensures
        match populate_plan(walk@, authoritative@, target@) {
            Ok(actions) => out is Ok && action_views(out->Ok_0@) == actions,
            Err(e) => out is Err && out->Err_0 == e,
        },
{
    let mut actions: Vec<FsAction> = Vec::new();
    let mut i: usize = 0;
    assert(action_views(actions@) == Seq::<FsActionView>::empty());
    while i < walk.len()
        invariant
            i <= walk.len(),
            populate_plan(walk@.take(i as int), authoritative@, target@) == Ok::<
                Seq<FsActionView>,
                SyncError,
            >(action_views(actions@)),
        decreases walk.len() - i,
    {
        let ghost before = action_views(actions@);
        proof {
            assert(walk@.take(i + 1).drop_last() == walk@.take(i as int));
            assert(walk@.take(i + 1).last() == walk@[i as int]);
        }
        match populate_entry(&walk[i], authoritative, target) {
            Ok(Some(action)) => {
                actions.push(action);
                assert(action_views(actions@) == before.push(action@));
            },
            Ok(None) => {},
            Err(e) => {
                proof {
                    lemma_populate_error_sticks(walk@, authoritative@, target@, i + 1);
                }
                return Err(e);
            },
        }
        i += 1;
    }
    assert(walk@.take(walk.len() as int) == walk@);
    Ok(actions)
}

/// The operations of an initialization: those that clear the target, then
/// those that fill it.
pub open spec fn initialization(
    top_level: Seq<WalkEntry>,
    walk: Seq<WalkEntry>,
    authoritative: Seq<Seq<u8>>,
    target: Seq<Seq<u8>>,
) -> Result<Seq<FsActionView>, SyncError> {
    match clear_plan(top_level, target) {
        Err(e) => Err(e),
        Ok(clearing) => match populate_plan(walk, authoritative, target) {
            Err(e) => Err(e),
            Ok(filling) => Ok(clearing + filling),
        },
    }
}

/// Plans an initialization from the top-level entries of the target and a
/// walk of the authoritative tree.
///
/// Fails, with nothing planned, if either part of the plan fails; the
/// clearing is looked at first.
pub fn initialize(
    top_level: &Vec<WalkEntry>,
    walk: &Vec<WalkEntry>,
    authoritative: &TreePath,
    target: &TreePath,
) -> (out: Result<Vec<FsAction>, SyncError>)
    ensures
        match initialization(top_level@, walk@, authoritative@, target@) {
            Ok(actions) => out is Ok && action_views(out->Ok_0@) == actions,
            Err(e) => out is Err && out->Err_0 == e,
        },
{
    let mut actions = match plan_clear(top_level, target) {
        Ok(actions) => actions,
        Err(e) => { return Err(e); },
    };
    let mut filling = match plan_populate(walk, authoritative, target) {
        Ok(actions) => actions,
        Err(e) => { return Err(e); },
    };
    let ghost first = action_views(actions@);
    let ghost second = action_views(filling@);
    actions.append(&mut filling);
    assert(action_views(actions@) == first + second);
    Ok(actions)
}

/// What the initializer makes of a removal or of the creation of a
/// directory: anything but success ends the initialization.
pub fn step_reported(outcome: IoOutcome) -> (out: Result<(), SyncError>)
    ensures
        outcome == IoOutcome::Done ==> out == Ok::<(), SyncError>(()),
        outcome == IoOutcome::NotFound ==> out == Err::<(), SyncError>(SyncError::IoError),
        outcome == IoOutcome::Failed ==> out == Err::<(), SyncError>(SyncError::CopyFailure),
{
    match outcome {
        IoOutcome::Done => Ok(()),
        IoOutcome::NotFound => Err(SyncError::IoError),
        IoOutcome::Failed => Err(SyncError::CopyFailure),
    }
}

/// What the initializer makes of a copy: anything but a copy that was made
/// ends the initialization.
pub fn copy_reported(end: CopyEnd) -> (out: Result<(), SyncError>)
    ensures
        end == CopyEnd::Copied ==> out == Ok::<(), SyncError>(()),
        end == CopyEnd::Vanished ==> out == Err::<(), SyncError>(SyncError::IoError),
        end == CopyEnd::Failed ==> out == Err::<(), SyncError>(SyncError::CopyFailure),
{
    match end {
        CopyEnd::Copied => Ok(()),
        CopyEnd::Vanished => Err(SyncError::IoError),
        CopyEnd::Failed => Err(SyncError::CopyFailure),
    }
}

/// The operations with which the engine starts: none if the trees are in
/// sync, else those of an initialization. `top_level` lists the target and
/// `walk` the authoritative tree.
pub open spec fn startup(
    resolution: Resolution,
    top_level: Seq<WalkEntry>,
    walk: Seq<WalkEntry>,
    work_dir: Seq<Seq<u8>>,
    backup_dir: Seq<Seq<u8>>,
) -> Result<Seq<FsActionView>, SyncError> {
    match resolution {
        Resolution::InSync => Ok(Seq::empty()),
        Resolution::Mirror { authoritative: Side::Work } => initialization(
            top_level,
            walk,
            work_dir,
            backup_dir,
        ),
        Resolution::Mirror { authoritative: Side::Backup } => initialization(
            top_level,
            walk,
            backup_dir,
            work_dir,
        ),
    }
}

/// Plans the start of the engine from what the resolver found.
///
/// For trees in sync nothing is planned and the two listings are not looked
/// at. Otherwise `top_level` lists the entries of the tree to overwrite and
/// `walk` those of the authoritative tree.
pub fn plan_startup(
    resolution: Resolution,
    top_level: &Vec<WalkEntry>,
    walk: &Vec<WalkEntry>,
    work_dir: &TreePath,
    backup_dir: &TreePath,
) -> (out: Result<Vec<FsAction>, SyncError>)
    ensures
        match startup(resolution, top_level@, walk@, work_dir@, backup_dir@) {
            Ok(actions) => out is Ok && action_views(out->Ok_0@) == actions,
            Err(e) => out is Err && out->Err_0 == e,
        },
{
    match resolution {
        Resolution::InSync => {
            let actions: Vec<FsAction> = Vec::new();
            assert(action_views(actions@) == Seq::<FsActionView>::empty());
            Ok(actions)
        },
        Resolution::Mirror { authoritative: Side::Work } => initialize(
            top_level,
            walk,
            work_dir,
            backup_dir,
        ),
        Resolution::Mirror { authoritative: Side::Backup } => initialize(
            top_level,
            walk,
            backup_dir,
            work_dir,
        ),
    }
}

/// Two trees that hold the same files below their roots, each with the same
/// content, have equal fingerprints. Under the fingerprint policy they are
/// found to be in sync, whatever their modification times, and the engine
/// then starts without an operation: every file is left as it is.
pub proof fn lemma_equal_trees_are_left_alone(
    work_files: Seq<HashedFile>,
    backup_files: Seq<HashedFile>,
    work_dir: Seq<Seq<u8>>,
    backup_dir: Seq<Seq<u8>>,
    work_times: Seq<Option<u64>>,
    backup_times: Seq<Option<u64>>,
    top_level: Seq<WalkEntry>,
    walk: Seq<WalkEntry>,
    tree: FileTree,
)
    requires
        listed_contents(work_files, work_dir) is Ok,
        listed_contents(backup_files, backup_dir) is Ok,
        listed_contents(work_files, work_dir)->Ok_0 == listed_contents(
            backup_files,
            backup_dir,
        )->Ok_0,
    ensures
        digests(listed_contents(work_files, work_dir)->Ok_0) == digests(
            listed_contents(backup_files, backup_dir)->Ok_0,
        ),
        resolution(
            Policy::Fingerprint,
            digests(listed_contents(work_files, work_dir)->Ok_0),
            digests(listed_contents(backup_files, backup_dir)->Ok_0),
            work_times,
            backup_times,
        ) == Ok::<Resolution, SyncError>(Resolution::InSync),
        startup(Resolution::InSync, top_level, walk, work_dir, backup_dir) == Ok::<
            Seq<FsActionView>,
            SyncError,
        >(Seq::empty()),
        run(Seq::empty(), tree) == tree,
{
}

} // verus!
