//! Paths as sequences of components, and the move of a path from one
//! root to the other.

use vstd::prelude::*;
use crate::error::SyncError;

verus! {

/// A path, one byte string per component, outermost first.
#[derive(Clone, Debug, PartialEq, Eq, Hash)]
pub struct TreePath {
    pub components: Vec<Vec<u8>>,
}

impl View for TreePath {
    type V = Seq<Seq<u8>>;

    open spec fn view(&self) -> Seq<Seq<u8>> {
        Seq::new(self.components@.len(), |i: int| self.components@[i]@)
    }
}

/// `path` lies under `root`: the components of `root` open `path`.
pub open spec fn under(path: Seq<Seq<u8>>, root: Seq<Seq<u8>>) -> bool {
    root.len() <= path.len() && path.subrange(0, root.len() as int) == root
}

/// `path`, taken out of `from` and placed under `to`.
pub open spec fn rerooted(path: Seq<Seq<u8>>, from: Seq<Seq<u8>>, to: Seq<Seq<u8>>) -> Seq<
    Seq<u8>,
> {
    to + path.skip(from.len() as int)
}

/// The path one level up; a path without components is its own parent.
pub open spec fn parent_of(path: Seq<Seq<u8>>) -> Seq<Seq<u8>> {
    if path.len() == 0 {
        path
    } else {
        path.drop_last()
    }
}

/// A fresh vector with the bytes of `bytes`.
pub fn copy_bytes(bytes: &Vec<u8>) -> (out: Vec<u8>)
    ensures
        out@ == bytes@,
{
    let mut out: Vec<u8> = Vec::new();
    let mut i: usize = 0;
    while i < bytes.len()
        invariant
            i <= bytes.len(),
            out@ == bytes@.take(i as int),
        decreases bytes.len() - i,
    {
        out.push(bytes[i]);
        i += 1;
    }
    assert(bytes@.take(bytes.len() as int) == bytes@);
    out
}

/// Whether two byte strings are the same.
pub fn bytes_equal(a: &Vec<u8>, b: &Vec<u8>) -> (same: bool)
    ensures
        same == (a@ == b@),
{
    if a.len() != b.len() {
        return false;
    }
    let mut i: usize = 0;
    while i < a.len()
        invariant
            a.len() == b.len(),
            i <= a.len(),
            a@.take(i as int) == b@.take(i as int),
        decreases a.len() - i,
    {
        if a[i] != b[i] {
            return false;
        }
        assert(a@.take(i + 1) == a@.take(i as int).push(a@[i as int]));
        assert(b@.take(i + 1) == b@.take(i as int).push(b@[i as int]));
        i += 1;
    }
    assert(a@.take(a.len() as int) == a@);
    assert(b@.take(b.len() as int) == b@);
    true
}

impl TreePath {
    /// The path with the given components.
    pub fn new(components: Vec<Vec<u8>>) -> (path: Self)
        ensures
            path.components == components,
    {
        TreePath { components }
    }

    /// The path without components.
    pub fn empty() -> (path: Self)
        ensures
            path@ == Seq::<Seq<u8>>::empty(),
    {
        let path = TreePath { components: Vec::new() };
        assert(path@ == Seq::<Seq<u8>>::empty());
        path
    }

    /// The number of components.
    pub fn depth(&self) -> (n: usize)
        ensures
            n == self@.len(),
    {
        self.components.len()
    }

    /// A copy of this path.
    pub fn duplicate(&self) -> (copy: Self)
        ensures
            copy@ == self@,
    {
        let mut components: Vec<Vec<u8>> = Vec::new();
        let mut i: usize = 0;
        while i < self.components.len()
            invariant
                i <= self.components.len(),
                components@.len() == i,
                forall|k: int| 0 <= k < i ==> components@[k]@ == #[trigger] self.components@[k]@,
            decreases self.components.len() - i,
        {
            components.push(copy_bytes(&self.components[i]));
            i += 1;
        }
        let copy = TreePath { components };
        assert(copy@ == self@);
        copy
    }

    /// Whether the two paths have the same components.
    pub fn same_as(&self, other: &TreePath) -> (same: bool)
        ensures
            same == (self@ == other@),
    {
        if self.components.len() != other.components.len() {
            return false;
        }
        let mut i: usize = 0;
        while i < self.components.len()
            invariant
                self.components.len() == other.components.len(),
                i <= self.components.len(),
                forall|k: int| 0 <= k < i ==> #[trigger] self@[k] == other@[k],
            decreases self.components.len() - i,
        {
            if !bytes_equal(&self.components[i], &other.components[i]) {
                assert(self@[i as int] != other@[i as int]);
                return false;
            }
            i += 1;
        }
        assert(self@ == other@);
        true
    }

    /// Whether this path lies under `root`.
    pub fn is_under(&self, root: &TreePath) -> (yes: bool)
        ensures
            yes == under(self@, root@),
    {
        if root.components.len() > self.components.len() {
            return false;
        }
        let mut i: usize = 0;
        while i < root.components.len()
            invariant
                root.components.len() <= self.components.len(),
                i <= root.components.len(),
                forall|k: int| 0 <= k < i ==> #[trigger] self@[k] == root@[k],
            decreases root.components.len() - i,
        {
            if !bytes_equal(&self.components[i], &root.components[i]) {
                assert(self@.subrange(0, root@.len() as int)[i as int] != root@[i as int]);
                return false;
            }
            i += 1;
        }
        assert(self@.subrange(0, root@.len() as int) == root@);
        true
    }

    /// The path one level up. A path without components is returned as it is.
    pub fn parent(&self) -> (up: Self)
        ensures
            up@ == parent_of(self@),
    {
        let mut up = self.duplicate();
        up.components.pop();
        assert(up@ == parent_of(self@));
        up
    }
}

/// Moves `path` from under `from` to under `to`.
///
/// Succeeds exactly when `path` lies under `from`.
pub fn translate(path: &TreePath, from: &TreePath, to: &TreePath) -> (out: Result<
    TreePath,
    SyncError,
>)
    ensures
        under(path@, from@) ==> out is Ok && out->Ok_0@ == rerooted(path@, from@, to@),
        !under(path@, from@) ==> out == Err::<TreePath, SyncError>(SyncError::PathOutsideRoot),
{
    if !path.is_under(from) {
        return Err(SyncError::PathOutsideRoot);
    }
    let mut moved = to.duplicate();
    let mut i: usize = from.components.len();
    while i < path.components.len()
        invariant
            from.components.len() <= i <= path.components.len(),
            moved@ == to@ + path@.subrange(from@.len() as int, i as int),
        decreases path.components.len() - i,
    {
        let ghost before = moved@;
        moved.components.push(copy_bytes(&path.components[i]));
        assert(moved@ == before.push(path@[i as int]));
        assert(path@.subrange(from@.len() as int, i + 1) == path@.subrange(
            from@.len() as int,
            i as int,
        ).push(path@[i as int]));
        i += 1;
    }
    assert(path@.subrange(from@.len() as int, path@.len() as int) == path@.skip(
        from@.len() as int,
    ));
    Ok(moved)
}

/// The mirror path of a path in the work tree.
pub fn convert_work_path_to_backup_path(
    path: &TreePath,
    work_dir: &TreePath,
    backup_dir: &TreePath,
) -> (out: Result<TreePath, SyncError>)
    ensures
        under(path@, work_dir@) ==> out is Ok && out->Ok_0@ == rerooted(
            path@,
            work_dir@,
            backup_dir@,
        ),
        !under(path@, work_dir@) ==> out == Err::<TreePath, SyncError>(
            SyncError::PathOutsideRoot,
        ),
{
    translate(path, work_dir, backup_dir)
}

/// The work path of a path in the mirror.
pub fn convert_backup_path_to_work_path(
    path: &TreePath,
    work_dir: &TreePath,
    backup_dir: &TreePath,
) -> (out: Result<TreePath, SyncError>)
    ensures
        under(path@, backup_dir@) ==> out is Ok && out->Ok_0@ == rerooted(
            path@,
            backup_dir@,
            work_dir@,
        ),
        !under(path@, backup_dir@) ==> out == Err::<TreePath, SyncError>(
            SyncError::PathOutsideRoot,
        ),
{
    translate(path, backup_dir, work_dir)
}

/// A translated path lies under the root it was moved to.
pub proof fn lemma_rerooted_is_under(path: Seq<Seq<u8>>, from: Seq<Seq<u8>>, to: Seq<Seq<u8>>)
    requires
        under(path, from),
    ensures
        under(rerooted(path, from, to), to),
{
    assert(rerooted(path, from, to).subrange(0, to.len() as int) == to);
}

/// Translating a path under `a` to `b` and back to `a` gives the path again.
pub proof fn lemma_translate_round_trip(path: Seq<Seq<u8>>, a: Seq<Seq<u8>>, b: Seq<Seq<u8>>)
    requires
        under(path, a),
    ensures
        under(rerooted(path, a, b), b),
        rerooted(rerooted(path, a, b), b, a) == path,
{
    lemma_rerooted_is_under(path, a, b);
    let there = rerooted(path, a, b);
    assert(there.skip(b.len() as int) == path.skip(a.len() as int));
    assert(a + path.skip(a.len() as int) == path) by {
        assert(path.subrange(0, a.len() as int) == a);
        assert(path.subrange(0, a.len() as int) + path.skip(a.len() as int) == path);
    }
}

/// Moving paths to another root keeps distinct paths distinct.
pub proof fn lemma_rerooted_injective(
    p: Seq<Seq<u8>>,
    q: Seq<Seq<u8>>,
    from: Seq<Seq<u8>>,
    to: Seq<Seq<u8>>,
)
    requires
        under(p, from),
        under(q, from),
        rerooted(p, from, to) == rerooted(q, from, to),
    ensures
        p == q,
{
    lemma_translate_round_trip(p, from, to);
    lemma_translate_round_trip(q, from, to);
}

} // verus!
