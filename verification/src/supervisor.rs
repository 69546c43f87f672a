//! The live-sync supervisor: which files of the work tree are tracked, and
//! what a scan does about each file it finds.

use vstd::prelude::*;
use crate::assoc::{
    distinct_paths, has_path, lemma_pairs_map_keys, lemma_pairs_map_push,
    lemma_pairs_map_remove, lemma_pairs_map_value, pairs_map,
};
use crate::copy::{copy_to_dst, planned_copy, CopyEnd, CopyPlan};
use crate::error::SyncError;
use crate::path::{rerooted, translate, under, TreePath};
use crate::shutdown::{LoopControl, ShutdownFlag, SCAN_INTERVAL_SECS};

verus! {

/// The paths that a list names.
pub open spec fn named(paths: Seq<TreePath>) -> Set<Seq<Seq<u8>>> {
    Set::new(|p: Seq<Seq<u8>>| exists|i: int| 0 <= i < paths.len() && (#[trigger] paths[i])@ == p)
}

/// A tracked file: its path, and the modification time that its watcher was
/// started with.
#[derive(Debug)]
pub struct WatchEntry {
    pub path: TreePath,
    pub last_modified: u64,
}

/// The files that have a watcher, each at most once.
#[derive(Debug)]
pub struct WatchTable {
    entries: Vec<WatchEntry>,
}

impl View for WatchTable {
    type V = Map<Seq<Seq<u8>>, u64>;

    /// Each tracked path, with the modification time its watcher started
    /// with.
    closed spec fn view(&self) -> Map<Seq<Seq<u8>>, u64> {
        pairs_map(self.pairs())
    }
}

impl WatchTable {
    /// The entries as pairs of path and modification time.
    pub closed spec fn pairs(&self) -> Seq<(Seq<Seq<u8>>, u64)> {
        Seq::new(
            self.entries@.len(),
            |i: int| (self.entries@[i].path@, self.entries@[i].last_modified),
        )
    }

    /// No file is tracked twice.
    pub closed spec fn wf(&self) -> bool {
        distinct_paths(self.pairs())
    }

    /// A table that tracks nothing.
    pub fn new() -> (table: Self)
        ensures
            table.wf(),
            table@ == Map::<Seq<Seq<u8>>, u64>::empty(),
    {
        let table = WatchTable { entries: Vec::new() };
        assert(table.pairs() == Seq::<(Seq<Seq<u8>>, u64)>::empty());
        table
    }

    /// The place of `path` in the table, if it is tracked.
    fn position(&self, path: &TreePath) -> (at: Option<usize>)
        ensures
            match at {
                Some(i) => i < self.entries@.len() && self.pairs()[i as int].0 == path@,
                None => !has_path(self.pairs(), path@),
            },
    {
        let mut i: usize = 0;
        while i < self.entries.len()
            invariant
                i <= self.entries.len(),
                forall|k: int| 0 <= k < i ==> (#[trigger] self.pairs()[k]).0 != path@,
            decreases self.entries.len() - i,
        {
            if self.entries[i].path.same_as(path) {
                return Some(i);
            }
            i += 1;
        }
        None
    }

    /// Whether `path` is tracked.
    pub fn tracks(&self, path: &TreePath) -> (yes: bool)
        ensures
            yes == self@.contains_key(path@),
    {
        proof {
            lemma_pairs_map_keys(self.pairs(), path@);
        }
        self.position(path).is_some()
    }

    /// The modification time that the watcher of `path` started with.
    pub fn seed(&self, path: &TreePath) -> (seed: Option<u64>)
        requires
            self.wf(),
        ensures
            self@.contains_key(path@) ==> seed == Some(self@[path@]),
            !self@.contains_key(path@) ==> seed is None,
    {
        proof {
            lemma_pairs_map_keys(self.pairs(), path@);
        }
        match self.position(path) {
            Some(i) => {
                proof {
                    lemma_pairs_map_value(self.pairs(), i as int);
                }
                Some(self.entries[i].last_modified)
            },
            None => None,
        }
    }

    /// The tracked paths, each once.
    pub fn watched(&self) -> (paths: Vec<TreePath>)
        requires
            self.wf(),
        ensures
            forall|p: Seq<Seq<u8>>| self@.contains_key(p) <==> named(paths@).contains(p),
            forall|i: int, j: int| 0 <= i < j < paths@.len() ==> paths@[i]@ != paths@[j]@,
    {
        let mut paths: Vec<TreePath> = Vec::new();
        let mut i: usize = 0;
        while i < self.entries.len()
            invariant
                i <= self.entries.len(),
                paths@.len() == i,
                forall|k: int| 0 <= k < i ==> (#[trigger] paths@[k])@ == self.pairs()[k].0,
            decreases self.entries.len() - i,
        {
            paths.push(self.entries[i].path.duplicate());
            i += 1;
        }
        proof {
            assert forall|i: int, j: int| 0 <= i < j < paths@.len() implies paths@[i]@
                != paths@[j]@ by {
                assert(self.pairs()[i].0 != self.pairs()[j].0);
            }
            assert forall|p: Seq<Seq<u8>>| self@.contains_key(p) <==> named(paths@).contains(
                p,
            ) by {
                lemma_pairs_map_keys(self.pairs(), p);
                if has_path(self.pairs(), p) {
                    let k = choose|k: int|
                        0 <= k < self.pairs().len() && (#[trigger] self.pairs()[k]).0 == p;
                    assert(paths@[k]@ == p);
                }
                if named(paths@).contains(p) {
                    let k = choose|k: int| 0 <= k < paths@.len() && (#[trigger] paths@[k])@ == p;
                    assert(self.pairs()[k].0 == p);
                }
            }
        }
        paths
    }

    /// Stops tracking `path`. Nothing changes if it was not tracked.
    pub fn forget(&mut self, path: &TreePath)
        requires
            old(self).wf(),
        ensures
            final(self).wf(),
            final(self)@ == old(self)@.remove(path@),
    {
        proof {
            lemma_pairs_map_keys(self.pairs(), path@);
        }
        match self.position(path) {
            Some(i) => {
                let ghost before = self.pairs();
                self.entries.remove(i);
                proof {
                    assert(self.pairs() == before.remove(i as int));
                    lemma_pairs_map_remove(before, i as int);
                }
            },
            None => {
                assert(self@ == self@.remove(path@));
            },
        }
    }

    /// Starts tracking `path`, with `last_modified` as the time its watcher
    /// starts with. A path that is tracked already keeps its entry.
    pub fn track(&mut self, path: &TreePath, last_modified: u64)
        requires
            old(self).wf(),
        ensures
            final(self).wf(),
            old(self)@.contains_key(path@) ==> final(self)@ == old(self)@,
            !old(self)@.contains_key(path@) ==> final(self)@ == old(self)@.insert(
                path@,
                last_modified,
            ),
    {
        proof {
            lemma_pairs_map_keys(self.pairs(), path@);
        }
        if self.position(path).is_none() {
            let ghost before = self.pairs();
            self.entries.push(WatchEntry { path: path.duplicate(), last_modified });
            proof {
                assert(self.pairs() == before.push((path@, last_modified)));
                lemma_pairs_map_push(before, path@, last_modified);
            }
        }
    }
}

/// Drops the entries of the watchers that have ended, whether or not their
/// files are still there. This ends a scan, so that such a file is looked at
/// afresh in the next one.
pub fn reap(table: &mut WatchTable, ended: &Vec<TreePath>)
    requires
        old(table).wf(),
    ensures
        final(table).wf(),
        final(table)@ == old(table)@.remove_keys(named(ended@)),
{
    let mut i: usize = 0;
    assert(table@ =~= table@.remove_keys(named(ended@.take(0))));
    while i < ended.len()
        invariant
            i <= ended.len(),
            table.wf(),
            table@ == old(table)@.remove_keys(named(ended@.take(i as int))),
        decreases ended.len() - i,
    {
        let ghost before = table@;
        table.forget(&ended[i]);
        proof {
            let sooner = named(ended@.take(i as int));
            let now = named(ended@.take(i + 1));
            assert forall|p: Seq<Seq<u8>>| now.contains(p) <==> sooner.contains(p) || p
                == ended@[i as int]@ by {
                if sooner.contains(p) {
                    let k = choose|k: int|
                        0 <= k < ended@.take(i as int).len() && (#[trigger] ended@.take(
                            i as int,
                        )[k])@ == p;
                    assert(ended@.take(i + 1)[k]@ == p);
                }
                if p == ended@[i as int]@ {
                    assert(ended@.take(i + 1)[i as int]@ == p);
                }
                if now.contains(p) {
                    let k = choose|k: int|
                        0 <= k < ended@.take(i + 1).len() && (#[trigger] ended@.take(i + 1)[k])@
                            == p;
                    if k < i {
                        assert(ended@.take(i as int)[k]@ == p);
                    }
                }
            }
            assert(table@ =~= old(table)@.remove_keys(now));
        }
        i += 1;
    }
    assert(ended@.take(ended.len() as int) == ended@);
}

/// What a scan has to find out about a file before it can decide.
#[derive(Clone, Debug, PartialEq, Eq)]
pub enum Inquiry {
    /// The file has a watcher: nothing.
    Watched,
    /// The file is not tracked: what is at its mirror path?
    Destination(TreePath),
}

/// What was found at a file's mirror path.
#[derive(Clone, Copy, Debug, PartialEq, Eq, Structural)]
pub enum DestProbe {
    /// A file, last modified at the given time.
    Present { modified: u64 },
    /// Nothing.
    Missing,
    /// The probe failed for another reason.
    Unreadable,
}

/// What a scan does about a file that was not tracked.
#[derive(Clone, Debug, PartialEq, Eq)]
pub enum Tracking {
    /// Start a watcher for the file, with the given modification time as the
    /// last one seen.
    Spawn { last_modified: u64 },
    /// Copy the file now; it is looked at again in the next scan.
    CopyNow(CopyPlan),
    /// The file has a watcher: do nothing.
    AlreadyTracked,
}

/// What a scan must find out about `file`, a regular file found in the work
/// tree.
///
/// For a file that has a watcher this is nothing. For one that has none it
/// is the state of its mirror path, which exists only for a file under
/// `work_dir`.
pub fn inquire(table: &WatchTable, file: &TreePath, work_dir: &TreePath, backup_dir: &TreePath) -> (out:
    Result<Inquiry, SyncError>)
    ensures
        table@.contains_key(file@) ==> out is Ok && out->Ok_0 is Watched,
        !table@.contains_key(file@) && under(file@, work_dir@) ==> out is Ok
            && out->Ok_0 is Destination && out->Ok_0->Destination_0@ == rerooted(
            file@,
            work_dir@,
            backup_dir@,
        ),
        !table@.contains_key(file@) && !under(file@, work_dir@) ==> out is Err && out->Err_0
            == SyncError::PathOutsideRoot,
{
    if table.tracks(file) {
        Ok(Inquiry::Watched)
    } else {
        match translate(file, work_dir, backup_dir) {
            Ok(destination) => Ok(Inquiry::Destination(destination)),
            Err(e) => Err(e),
        }
    }
}

/// Decides what to do about `file`, given what was found at its mirror path.
///
/// A file with a mirror gets a watcher that starts from the mirror's
/// modification time, so that the file counts as changed as soon as it
/// differs from what was mirrored last. A file without a mirror is copied at
/// once and not tracked yet. A probe that failed is an error.
pub fn destination_probed(
    table: &mut WatchTable,
    file: &TreePath,
    work_dir: &TreePath,
    backup_dir: &TreePath,
    probe: DestProbe,
) -> (out: Result<Tracking, SyncError>)
    requires
        old(table).wf(),
    ensures
        final(table).wf(),
        old(table)@.contains_key(file@) ==> out is Ok && out->Ok_0 is AlreadyTracked
            && final(table)@ == old(table)@,
        !old(table)@.contains_key(file@) ==> match probe {
            DestProbe::Present { modified } => {
                &&& out is Ok
                &&& out->Ok_0 is Spawn
                &&& out->Ok_0->last_modified == modified
                &&& final(table)@ == old(table)@.insert(file@, modified)
            },
            DestProbe::Missing => {
                &&& final(table)@ == old(table)@
                &&& under(file@, work_dir@) ==> out is Ok && out->Ok_0 is CopyNow
                    && out->Ok_0->CopyNow_0@ == planned_copy(file@, work_dir@, backup_dir@)
                &&& !under(file@, work_dir@) ==> out is Err && out->Err_0
                    == SyncError::PathOutsideRoot
            },
            DestProbe::Unreadable => {
                &&& final(table)@ == old(table)@
                &&& out is Err
                &&& out->Err_0 == SyncError::IoError
            },
        },
{
    if table.tracks(file) {
        return Ok(Tracking::AlreadyTracked);
    }
    match probe {
        DestProbe::Present { modified } => {
            table.track(file, modified);
            Ok(Tracking::Spawn { last_modified: modified })
        },
        DestProbe::Missing => match copy_to_dst(file, work_dir, backup_dir) {
            Ok(plan) => Ok(Tracking::CopyNow(plan)),
            Err(e) => Err(e),
        },
        DestProbe::Unreadable => Err(SyncError::IoError),
    }
}

/// What the supervisor reports of a copy it made at once: a failed copy is an
/// error, a file that vanished meanwhile is not.
pub fn copy_reported(end: CopyEnd) -> (out: Result<(), SyncError>)
    ensures
        end == CopyEnd::Failed ==> out == Err::<(), SyncError>(SyncError::CopyFailure),
        end != CopyEnd::Failed ==> out == Ok::<(), SyncError>(()),
{
    match end {
        CopyEnd::Failed => Err(SyncError::CopyFailure),
        _ => Ok(()),
    }
}

/// What the supervisor does after a scan: it returns once the flag is
/// raised, and sleeps for the scan interval otherwise.
pub fn scan_finished(flag: &ShutdownFlag) -> (control: LoopControl)
    ensures
        flag.raised() ==> control == LoopControl::Stop,
        !flag.raised() ==> control == LoopControl::SleepSecs(SCAN_INTERVAL_SECS),
{
    flag.end_of_round(SCAN_INTERVAL_SECS)
}

} // verus!
