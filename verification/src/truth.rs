//! The truth resolver: which of the two trees is copied onto the other when
//! the engine starts.

use vstd::prelude::*;
use crate::error::SyncError;
use crate::fingerprint::TreeFingerprint;
use crate::path::TreePath;

verus! {

/// One of the two trees.
#[derive(Clone, Copy, Debug, PartialEq, Eq, Structural)]
pub enum Side {
    Work,
    Backup,
}

/// How the authoritative tree is chosen.
#[derive(Clone, Copy, Debug, PartialEq, Eq, Structural)]
pub enum Policy {
    /// The tree with the most recently modified file is authoritative.
    Recency,
    /// Trees with equal fingerprints are left alone; otherwise as `Recency`.
    Fingerprint,
}

/// What the resolver found.
#[derive(Clone, Copy, Debug, PartialEq, Eq, Structural)]
pub enum Resolution {
    /// The trees agree: nothing is to be copied.
    InSync,
    /// The tree on the given side is copied onto the other.
    Mirror { authoritative: Side },
}

/// The greatest of the times that were read; 0 if there is none.
pub open spec fn latest(times: Seq<Option<u64>>) -> u64
    decreases times.len(),
{
    if times.len() == 0 {
        0
    } else {
        let before = latest(times.drop_last());
        match times.last() {
            Some(t) if t > before => t,
            _ => before,
        }
    }
}

/// Every file's modification time was read.
pub open spec fn all_read(times: Seq<Option<u64>>) -> bool {
    forall|i: int| 0 <= i < times.len() ==> (#[trigger] times[i]) is Some
}

/// The modification time of a tree, given that of each of its files: the
/// most recent one. A tree without files has none.
pub open spec fn modify_time(times: Seq<Option<u64>>) -> Result<u64, SyncError> {
    if !all_read(times) {
        Err(SyncError::IoError)
    } else if times.len() == 0 {
        Err(SyncError::EmptyTree)
    } else {
        Ok(latest(times))
    }
}

/// `latest` is the time of one of the files, and no file has a later one.
pub proof fn lemma_latest_is_greatest(times: Seq<Option<u64>>)
    requires
        all_read(times),
        times.len() > 0,
    ensures
        exists|i: int| 0 <= i < times.len() && #[trigger] times[i] == Some(latest(times)),
        forall|i: int| 0 <= i < times.len() ==> (#[trigger] times[i])->Some_0 <= latest(times),
    decreases times.len(),
{
    let front = times.drop_last();
    assert(times[times.len() - 1] == times.last());
    if front.len() == 0 {
        assert(latest(front) == 0);
        assert(times[0] == Some(latest(times)));
    } else {
        assert(all_read(front)) by {
            assert forall|i: int| 0 <= i < front.len() implies (#[trigger] front[i]) is Some by {
                assert(times[i] is Some);
            }
        }
        lemma_latest_is_greatest(front);
        let w = choose|i: int| 0 <= i < front.len() && #[trigger] front[i] == Some(latest(front));
        assert(times[w] == front[w]);
        if latest(times) == latest(front) {
            assert(times[w] == Some(latest(times)));
        } else {
            assert(times[times.len() - 1] == Some(latest(times)));
        }
        assert forall|i: int| 0 <= i < times.len() implies (#[trigger] times[i])->Some_0
            <= latest(times) by {
            if i < front.len() {
                assert(front[i] == times[i]);
            }
        }
    }
}

/// Computes the modification time of a tree from that of each of its files;
/// `None` stands for a file whose time could not be read.
///
/// Fails with `IoError` if a time could not be read, and with `EmptyTree` if
/// the tree has no file.
pub fn dir_modify_time(times: &Vec<Option<u64>>) -> (out: Result<u64, SyncError>)
    ensures
        out == modify_time(times@),
{
    let mut newest: u64 = 0;
    let mut i: usize = 0;
    while i < times.len()
        invariant
            i <= times.len(),
            all_read(times@.take(i as int)),
            newest == latest(times@.take(i as int)),
        decreases times.len() - i,
    {
        proof {
            assert(times@.take(i + 1).drop_last() == times@.take(i as int));
            assert(times@.take(i + 1).last() == times@[i as int]);
        }
        match times[i] {
            None => {
                assert(!all_read(times@));
                return Err(SyncError::IoError);
            },
            Some(t) => {
                if t > newest {
                    newest = t;
                }
            },
        }
        proof {
            assert forall|k: int| 0 <= k < i + 1 implies (#[trigger] times@.take(i + 1)[k]) is Some by {
                if k < i {
                    assert(times@.take(i as int)[k] is Some);
                }
            }
        }
        i += 1;
    }
    assert(times@.take(times.len() as int) == times@);
    if times.len() == 0 {
        Err(SyncError::EmptyTree)
    } else {
        Ok(newest)
    }
}

/// The authoritative side by recency.
///
/// The work tree is authoritative if its newest file is newer than the
/// mirror's, or if the mirror has no file at all. On equal times the mirror
/// is authoritative. A work tree without files is an error.
pub open spec fn recency_choice(work: Seq<Option<u64>>, backup: Seq<Option<u64>>) -> Result<
    Side,
    SyncError,
> {
    match modify_time(work) {
        Err(e) => Err(e),
        Ok(work_time) => match modify_time(backup) {
            Err(SyncError::EmptyTree) => Ok(Side::Work),
            Err(e) => Err(e),
            Ok(backup_time) => if work_time > backup_time {
                Ok(Side::Work)
            } else {
                Ok(Side::Backup)
            },
        },
    }
}

/// Chooses the authoritative side by recency, from the modification times of
/// the files of each tree.
pub fn resolve_by_recency(work: &Vec<Option<u64>>, backup: &Vec<Option<u64>>) -> (out: Result<
    Side,
    SyncError,
>)
    ensures
        out == recency_choice(work@, backup@),
{
    match dir_modify_time(work) {
        Err(e) => Err(e),
        Ok(work_time) => match dir_modify_time(backup) {
            Err(SyncError::EmptyTree) => Ok(Side::Work),
            Err(e) => Err(e),
            Ok(backup_time) => if work_time > backup_time {
                Ok(Side::Work)
            } else {
                Ok(Side::Backup)
            },
        },
    }
}

/// What the resolver finds under `policy`.
///
/// By recency a side is always chosen. By fingerprint, trees with equal
/// fingerprints are in sync, whatever their times; for others recency
/// chooses.
pub open spec fn resolution(
    policy: Policy,
    work_fingerprint: Map<Seq<Seq<u8>>, Seq<u8>>,
    backup_fingerprint: Map<Seq<Seq<u8>>, Seq<u8>>,
    work_times: Seq<Option<u64>>,
    backup_times: Seq<Option<u64>>,
) -> Result<Resolution, SyncError> {
    if policy == Policy::Fingerprint && work_fingerprint == backup_fingerprint {
        Ok(Resolution::InSync)
    } else {
        match recency_choice(work_times, backup_times) {
            Ok(side) => Ok(Resolution::Mirror { authoritative: side }),
            Err(e) => Err(e),
        }
    }
}

/// What is known of a tree when the engine starts.
#[derive(Debug)]
pub struct TreeSurvey {
    /// The modification time of each file; `None` where it could not be read.
    pub times: Vec<Option<u64>>,
    /// The tree's fingerprint. It is not looked at under `Policy::Recency`.
    pub fingerprint: TreeFingerprint,
}

/// Decides which tree is authoritative.
pub fn resolve(policy: Policy, work: &TreeSurvey, backup: &TreeSurvey) -> (out: Result<
    Resolution,
    SyncError,
>)
    requires
        work.fingerprint.wf(),
        backup.fingerprint.wf(),
    ensures
        out == resolution(
            policy,
            work.fingerprint@,
            backup.fingerprint@,
            work.times@,
            backup.times@,
        ),
{
    let in_sync = match policy {
        Policy::Fingerprint => work.fingerprint.same_as(&backup.fingerprint),
        Policy::Recency => false,
    };
    if in_sync {
        Ok(Resolution::InSync)
    } else {
        match resolve_by_recency(&work.times, &backup.times) {
            Ok(side) => Ok(Resolution::Mirror { authoritative: side }),
            Err(e) => Err(e),
        }
    }
}

/// The authoritative root and the root to overwrite, in this order, when
/// `authoritative` was chosen.
pub fn roots(authoritative: Side, work_dir: &TreePath, backup_dir: &TreePath) -> (pair: (
    TreePath,
    TreePath,
))
    ensures
        authoritative == Side::Work ==> pair.0@ == work_dir@ && pair.1@ == backup_dir@,
        authoritative == Side::Backup ==> pair.0@ == backup_dir@ && pair.1@ == work_dir@,
{
    match authoritative {
        Side::Work => (work_dir.duplicate(), backup_dir.duplicate()),
        Side::Backup => (backup_dir.duplicate(), work_dir.duplicate()),
    }
}

} // verus!
