//! The copy of one file to its mirror, as a plan and as the steps that carry
//! it out.

use vstd::prelude::*;
use crate::error::{IoOutcome, SyncError};
use crate::path::{parent_of, rerooted, translate, under, TreePath};

verus! {

/// Where a file is copied from and to.
#[derive(Clone, Debug, PartialEq, Eq)]
pub struct CopyPlan {
    /// The file to read.
    pub source: TreePath,
    /// The file to write: the source, moved to the other root.
    pub destination: TreePath,
    /// The directory that must exist before the destination is written.
    pub parent: TreePath,
}

/// A copy plan, with its paths as sequences.
pub ghost struct CopyPlanView {
    pub source: Seq<Seq<u8>>,
    pub destination: Seq<Seq<u8>>,
    pub parent: Seq<Seq<u8>>,
}

impl View for CopyPlan {
    type V = CopyPlanView;

    open spec fn view(&self) -> CopyPlanView {
        CopyPlanView {
            source: self.source@,
            destination: self.destination@,
            parent: self.parent@,
        }
    }
}

/// The plan for copying `path` from under `from_root` to under `to_root`.
pub open spec fn planned_copy(
    path: Seq<Seq<u8>>,
    from_root: Seq<Seq<u8>>,
    to_root: Seq<Seq<u8>>,
) -> CopyPlanView {
    CopyPlanView {
        source: path,
        destination: rerooted(path, from_root, to_root),
        parent: parent_of(rerooted(path, from_root, to_root)),
    }
}

/// Plans the copy of `path`, which lies under `from_root`, to its place under
/// `to_root`.
///
/// Fails exactly when `path` does not lie under `from_root`.
pub fn copy_to_dst(path: &TreePath, from_root: &TreePath, to_root: &TreePath) -> (out: Result<
    CopyPlan,
    SyncError,
>)
    ensures
        under(path@, from_root@) ==> out is Ok && out->Ok_0@ == planned_copy(
            path@,
            from_root@,
            to_root@,
        ),
        !under(path@, from_root@) ==> out is Err && out->Err_0 == SyncError::PathOutsideRoot,
{
    match translate(path, from_root, to_root) {
        Ok(destination) => {
            let parent = destination.parent();
            Ok(CopyPlan { source: path.duplicate(), destination, parent })
        },
        Err(e) => Err(e),
    }
}

/// The operation of a copy that is under way.
#[derive(Clone, Copy, Debug, PartialEq, Eq, Structural)]
pub enum CopyStage {
    /// Create the destination's parent directory and those above it.
    CreateParent,
    /// Remove what stands at the destination.
    RemoveExisting,
    /// Copy the bytes.
    CopyBytes,
}

/// How a copy ended.
#[derive(Clone, Copy, Debug, PartialEq, Eq, Structural)]
pub enum CopyEnd {
    /// The destination now holds the source's content.
    Copied,
    /// An entry vanished under the copy; nothing is wrong.
    Vanished,
    /// The copy failed.
    Failed,
}

/// How a copy goes on after one of its operations.
#[derive(Clone, Copy, Debug, PartialEq, Eq, Structural)]
pub enum CopyVerdict {
    /// Perform the given operation next.
    Continue(CopyStage),
    /// The copy is over.
    End(CopyEnd),
}

/// The verdict on a copy whose operation `stage` ended with `outcome`.
///
/// A destination that was not there to be removed is no obstacle. A missing
/// entry at any other point means the tree changed under the copy.
pub open spec fn copy_verdict(stage: CopyStage, outcome: IoOutcome) -> CopyVerdict {
    match (stage, outcome) {
        (_, IoOutcome::Failed) => CopyVerdict::End(CopyEnd::Failed),
        (CopyStage::CreateParent, IoOutcome::Done) => CopyVerdict::Continue(
            CopyStage::RemoveExisting,
        ),
        (CopyStage::CreateParent, IoOutcome::NotFound) => CopyVerdict::End(CopyEnd::Vanished),
        (CopyStage::RemoveExisting, _) => CopyVerdict::Continue(CopyStage::CopyBytes),
        (CopyStage::CopyBytes, IoOutcome::Done) => CopyVerdict::End(CopyEnd::Copied),
        (CopyStage::CopyBytes, IoOutcome::NotFound) => CopyVerdict::End(CopyEnd::Vanished),
    }
}

/// The first operation of every copy.
pub fn copy_begin() -> (stage: CopyStage)
    ensures
        stage == CopyStage::CreateParent,
{
    CopyStage::CreateParent
}

/// Decides how a copy goes on after its operation `stage` ended with
/// `outcome`.
pub fn copy_step(stage: CopyStage, outcome: IoOutcome) -> (verdict: CopyVerdict)
    ensures
        verdict == copy_verdict(stage, outcome),
{
    match outcome {
        IoOutcome::Failed => CopyVerdict::End(CopyEnd::Failed),
        IoOutcome::Done => match stage {
            CopyStage::CreateParent => CopyVerdict::Continue(CopyStage::RemoveExisting),
            CopyStage::RemoveExisting => CopyVerdict::Continue(CopyStage::CopyBytes),
            CopyStage::CopyBytes => CopyVerdict::End(CopyEnd::Copied),
        },
        IoOutcome::NotFound => match stage {
            CopyStage::RemoveExisting => CopyVerdict::Continue(CopyStage::CopyBytes),
            _ => CopyVerdict::End(CopyEnd::Vanished),
        },
    }
}

} // verus!
