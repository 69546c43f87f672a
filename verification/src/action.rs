//! The operations that the engine asks for, and what each does to a tree of
//! files.

use vstd::prelude::*;
use crate::copy::{CopyPlan, CopyPlanView};
use crate::path::{under, TreePath};

verus! {

/// The regular files of a file system: each file's path and content.
pub type FileTree = Map<Seq<Seq<u8>>, Seq<u8>>;

/// An operation on the file system.
#[derive(Clone, Debug, PartialEq, Eq)]
pub enum FsAction {
    /// Remove the file at the path.
    RemoveFile(TreePath),
    /// Remove the directory at the path, with all that it holds.
    RemoveDirAll(TreePath),
    /// Create the directory at the path, and those above it.
    CreateDirAll(TreePath),
    /// Copy a file to its mirror, replacing what stands there.
    Copy(CopyPlan),
}

/// An operation, with its paths as sequences.
pub ghost enum FsActionView {
    RemoveFile(Seq<Seq<u8>>),
    RemoveDirAll(Seq<Seq<u8>>),
    CreateDirAll(Seq<Seq<u8>>),
    Copy(CopyPlanView),
}

impl View for FsAction {
    type V = FsActionView;

    open spec fn view(&self) -> FsActionView {
        match self {
            FsAction::RemoveFile(path) => FsActionView::RemoveFile(path@),
            FsAction::RemoveDirAll(path) => FsActionView::RemoveDirAll(path@),
            FsAction::CreateDirAll(path) => FsActionView::CreateDirAll(path@),
            FsAction::Copy(plan) => FsActionView::Copy(plan@),
        }
    }
}

/// The operations of a list, each by its view.
pub open spec fn action_views(actions: Seq<FsAction>) -> Seq<FsActionView> {
    Seq::new(actions.len(), |i: int| actions[i]@)
}

/// `tree` without the files at or below `dir`.
pub open spec fn without_subtree(tree: FileTree, dir: Seq<Seq<u8>>) -> FileTree {
    tree.remove_keys(Set::new(|q: Seq<Seq<u8>>| under(q, dir)))
}

/// `tree` after the file at `source` was copied to `destination`. What stood
/// at the destination is removed first, so a missing source leaves no
/// destination.
pub open spec fn with_copy(
    tree: FileTree,
    source: Seq<Seq<u8>>,
    destination: Seq<Seq<u8>>,
) -> FileTree {
    let cleared = tree.remove(destination);
    if cleared.contains_key(source) {
        cleared.insert(destination, cleared[source])
    } else {
        cleared
    }
}

impl FsActionView {
    /// The files after the operation was carried out on `tree`.
    pub open spec fn effect(self, tree: FileTree) -> FileTree {
        match self {
            FsActionView::RemoveFile(path) => tree.remove(path),
            FsActionView::RemoveDirAll(path) => without_subtree(tree, path),
            FsActionView::CreateDirAll(_) => tree,
            FsActionView::Copy(plan) => with_copy(tree, plan.source, plan.destination),
        }
    }

    /// The operation only takes files away.
    pub open spec fn is_removal(self) -> bool {
        self is RemoveFile || self is RemoveDirAll
    }

    /// The operation changes no file outside `root`.
    pub open spec fn confined_to(self, root: Seq<Seq<u8>>) -> bool {
        match self {
            FsActionView::RemoveFile(path) => under(path, root),
            FsActionView::RemoveDirAll(path) => under(path, root),
            FsActionView::CreateDirAll(path) => under(path, root),
            FsActionView::Copy(plan) => under(plan.destination, root),
        }
    }
}

/// The files after the operations were carried out on `tree`, first to last.
pub open spec fn run(actions: Seq<FsActionView>, tree: FileTree) -> FileTree
    decreases actions.len(),
{
    if actions.len() == 0 {
        tree
    } else {
        actions.last().effect(run(actions.drop_last(), tree))
    }
}

/// Whatever lies below a path that lies under `root` lies under `root` too.
pub proof fn lemma_under_transitive(q: Seq<Seq<u8>>, mid: Seq<Seq<u8>>, root: Seq<Seq<u8>>)
    requires
        under(q, mid),
        under(mid, root),
    ensures
        under(q, root),
{
    assert(q.subrange(0, root.len() as int) =~= mid.subrange(0, root.len() as int)) by {
        assert forall|i: int| 0 <= i < root.len() implies q[i] == mid[i] by {
            assert(q.subrange(0, mid.len() as int)[i] == mid[i]);
        }
    }
}

/// An operation confined to `root` leaves every file outside `root` as it
/// was.
pub proof fn lemma_effect_confined(
    action: FsActionView,
    tree: FileTree,
    root: Seq<Seq<u8>>,
    p: Seq<Seq<u8>>,
)
    requires
        action.confined_to(root),
        !under(p, root),
    ensures
        action.effect(tree).contains_key(p) == tree.contains_key(p),
        tree.contains_key(p) ==> action.effect(tree)[p] == tree[p],
{
    match action {
        FsActionView::RemoveDirAll(path) => {
            if under(p, path) {
                lemma_under_transitive(p, path, root);
            }
        },
        _ => {},
    }
}

/// Removals add no file and change none.
pub proof fn lemma_removals_shrink(actions: Seq<FsActionView>, tree: FileTree)
    requires
        forall|i: int| 0 <= i < actions.len() ==> (#[trigger] actions[i]).is_removal(),
    ensures
        forall|q: Seq<Seq<u8>>| #[trigger]
            run(actions, tree).contains_key(q) ==> tree.contains_key(q) && run(actions, tree)[q]
                == tree[q],
    decreases actions.len(),
{
    if actions.len() > 0 {
        let front = actions.drop_last();
        assert forall|i: int| 0 <= i < front.len() implies (#[trigger] front[i]).is_removal() by {
            assert(front[i] == actions[i]);
        }
        lemma_removals_shrink(front, tree);
        let mid = run(front, tree);
        let last = actions[actions.len() - 1];
        assert(last.is_removal());
        assert(run(actions, tree) == last.effect(mid));
        assert forall|q: Seq<Seq<u8>>| #[trigger]
            run(actions, tree).contains_key(q) implies tree.contains_key(q) && run(
            actions,
            tree,
        )[q] == tree[q] by {
            assert(mid.contains_key(q));
            assert(last.effect(mid)[q] == mid[q]);
        }
    }
}

} // verus!
