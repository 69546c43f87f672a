//! The watcher of one file: it looks at the file's modification time again
//! and again, and has the file copied whenever the time has changed.

use vstd::prelude::*;
use crate::action::{FileTree, FsActionView};
use crate::copy::{copy_to_dst, planned_copy, CopyEnd, CopyPlan, CopyPlanView};
use crate::error::SyncError;
use crate::path::{rerooted, under, TreePath};
use crate::shutdown::{LoopControl, ShutdownFlag, POLL_INTERVAL_SECS};

verus! {

/// What a look at the watched file gave.
#[derive(Clone, Copy, Debug, PartialEq, Eq, Structural)]
pub enum StatOutcome {
    /// The file is there, last modified at the given time.
    Found { modified: u64 },
    /// The file is gone.
    NotFound,
    /// The look failed for another reason.
    Failed,
}

/// Why a watcher ends.
#[derive(Clone, Copy, Debug, PartialEq, Eq, Structural)]
pub enum StopReason {
    /// The watched file is gone. Removing its mirror is not the watcher's
    /// business.
    SourceGone,
    /// The watcher failed, and the failure is to be reported.
    Failed(SyncError),
}

/// What a watcher does after a look at its file.
#[derive(Clone, Debug, PartialEq, Eq)]
pub enum WatchStep {
    /// The file changed: copy it.
    Copy(CopyPlan),
    /// The file is as it was last seen.
    Unchanged,
    /// End the watcher.
    Stop(StopReason),
}

/// A step, with its paths as sequences.
pub ghost enum WatchStepView {
    Copy(CopyPlanView),
    Unchanged,
    Stop(StopReason),
}

impl View for WatchStep {
    type V = WatchStepView;

    open spec fn view(&self) -> WatchStepView {
        match self {
            WatchStep::Copy(plan) => WatchStepView::Copy(plan@),
            WatchStep::Unchanged => WatchStepView::Unchanged,
            WatchStep::Stop(reason) => WatchStepView::Stop(*reason),
        }
    }
}

/// The watcher of one file. It alone writes `last_modified` once it runs.
#[derive(Clone, Debug, PartialEq, Eq)]
pub struct Watcher {
    /// The watched file.
    pub path: TreePath,
    /// The root that the file lies under.
    pub work_dir: TreePath,
    /// The root that the file is mirrored to.
    pub backup_dir: TreePath,
    /// The modification time that was seen last.
    pub last_modified: u64,
}

impl Watcher {
    /// A watcher of `path` that takes `last_modified` as seen.
    pub fn new(path: TreePath, work_dir: TreePath, backup_dir: TreePath, last_modified: u64) -> (watcher:
        Self)
        ensures
            watcher.path == path,
            watcher.work_dir == work_dir,
            watcher.backup_dir == backup_dir,
            watcher.last_modified == last_modified,
    {
        Watcher { path, work_dir, backup_dir, last_modified }
    }

    /// What the watcher does after a look at its file.
    ///
    /// A file that is gone ends the watcher. A file whose modification time
    /// differs from the one seen last, in either direction, is copied.
    /// Otherwise nothing is done.
    pub open spec fn reaction(&self, stat: StatOutcome) -> WatchStepView {
        match stat {
            StatOutcome::NotFound => WatchStepView::Stop(StopReason::SourceGone),
            StatOutcome::Failed => WatchStepView::Stop(StopReason::Failed(SyncError::IoError)),
            StatOutcome::Found { modified } => if modified == self.last_modified {
                WatchStepView::Unchanged
            } else if under(self.path@, self.work_dir@) {
                WatchStepView::Copy(planned_copy(self.path@, self.work_dir@, self.backup_dir@))
            } else {
                WatchStepView::Stop(StopReason::Failed(SyncError::PathOutsideRoot))
            },
        }
    }

    /// The modification time that counts as seen after a look at the file.
    pub open spec fn noted(&self, stat: StatOutcome) -> u64 {
        match stat {
            StatOutcome::Found { modified } => modified,
            _ => self.last_modified,
        }
    }

    /// Decides what to do after a look at the file. A new modification time
    /// is noted before the copy is tried.
    pub fn observe(&mut self, stat: StatOutcome) -> (step: WatchStep)
        ensures
            step@ == old(self).reaction(stat),
            final(self).last_modified == old(self).noted(stat),
            final(self).path == old(self).path,
            final(self).work_dir == old(self).work_dir,
            final(self).backup_dir == old(self).backup_dir,
    {
        match stat {
            StatOutcome::NotFound => WatchStep::Stop(StopReason::SourceGone),
            StatOutcome::Failed => WatchStep::Stop(StopReason::Failed(SyncError::IoError)),
            StatOutcome::Found { modified } => {
                if modified == self.last_modified {
                    WatchStep::Unchanged
                } else {
                    self.last_modified = modified;
                    match copy_to_dst(&self.path, &self.work_dir, &self.backup_dir) {
                        Ok(plan) => WatchStep::Copy(plan),
                        Err(e) => WatchStep::Stop(StopReason::Failed(e)),
                    }
                }
            },
        }
    }

    /// Decides whether the watcher goes on after a copy.
    ///
    /// It goes on after a copy that was made. A file that vanished under the
    /// copy ends the watcher quietly, any other failure ends it with an
    /// error.
    pub fn copied(&self, end: CopyEnd) -> (stop: Option<StopReason>)
        ensures
            end == CopyEnd::Copied ==> stop is None,
            end == CopyEnd::Vanished ==> stop == Some(StopReason::SourceGone),
            end == CopyEnd::Failed ==> stop == Some(StopReason::Failed(SyncError::CopyFailure)),
    {
        match end {
            CopyEnd::Copied => None,
            CopyEnd::Vanished => Some(StopReason::SourceGone),
            CopyEnd::Failed => Some(StopReason::Failed(SyncError::CopyFailure)),
        }
    }

    /// What the watcher does at the end of a round: it ends once the flag is
    /// raised, and sleeps for the poll interval otherwise.
    pub fn round_finished(&self, flag: &ShutdownFlag) -> (control: LoopControl)
        ensures
            flag.raised() ==> control == LoopControl::Stop,
            !flag.raised() ==> control == LoopControl::SleepSecs(POLL_INTERVAL_SECS),
    {
        flag.end_of_round(POLL_INTERVAL_SECS)
    }
}

/// A tracked file whose modification time has changed is copied at the
/// watcher's next look, and once the copy is made the mirror holds the
/// content that the file has. The file must not be its own mirror.
pub proof fn lemma_change_is_propagated(watcher: Watcher, modified: u64, tree: FileTree)
    requires
        under(watcher.path@, watcher.work_dir@),
        rerooted(watcher.path@, watcher.work_dir@, watcher.backup_dir@) != watcher.path@,
        modified != watcher.last_modified,
        tree.contains_key(watcher.path@),
    ensures
        watcher.reaction(StatOutcome::Found { modified }) == WatchStepView::Copy(
            planned_copy(watcher.path@, watcher.work_dir@, watcher.backup_dir@),
        ),
        watcher.noted(StatOutcome::Found { modified }) == modified,
        FsActionView::Copy(
            planned_copy(watcher.path@, watcher.work_dir@, watcher.backup_dir@),
        ).effect(tree).contains_key(
            rerooted(watcher.path@, watcher.work_dir@, watcher.backup_dir@),
        ),
        FsActionView::Copy(
            planned_copy(watcher.path@, watcher.work_dir@, watcher.backup_dir@),
        ).effect(tree)[rerooted(watcher.path@, watcher.work_dir@, watcher.backup_dir@)]
            == tree[watcher.path@],
{
}

/// A modification time that is the one seen last goes unnoticed, whatever
/// happened to the file's content: the watcher asks for nothing.
pub proof fn lemma_same_time_is_missed(watcher: Watcher)
    ensures
        watcher.reaction(StatOutcome::Found { modified: watcher.last_modified })
            == WatchStepView::Unchanged,
{
}

} // verus!
