//! The fingerprint of a tree: the digest of each of its files, by the file's
//! path below the root.

use vstd::prelude::*;
use crate::assoc::{
    distinct_paths, has_path, lemma_pairs_map_keys, lemma_pairs_map_push,
    lemma_pairs_map_update, lemma_pairs_map_value, pairs_map,
};
use crate::error::{EntryKind, SyncError};
use crate::hasher::{blake3_digest, Digest, FileHasher};
use crate::path::{translate, under, TreePath};

verus! {

/// One file of a fingerprint.
#[derive(Debug)]
pub struct FingerprintEntry {
    pub path: TreePath,
    pub digest: Digest,
}

/// The digests of a tree's files, each file at most once.
#[derive(Debug)]
pub struct TreeFingerprint {
    entries: Vec<FingerprintEntry>,
}

impl View for TreeFingerprint {
    type V = Map<Seq<Seq<u8>>, Seq<u8>>;

    /// Each file's path below the root, with the file's digest.
    closed spec fn view(&self) -> Map<Seq<Seq<u8>>, Seq<u8>> {
        pairs_map(self.pairs())
    }
}

impl TreeFingerprint {
    pub closed spec fn pairs(&self) -> Seq<(Seq<Seq<u8>>, Seq<u8>)> {
        Seq::new(self.entries@.len(), |i: int| (self.entries@[i].path@, self.entries@[i].digest@))
    }

    /// No file occurs twice.
    pub closed spec fn wf(&self) -> bool {
        distinct_paths(self.pairs())
    }

    /// The fingerprint of a tree without files.
    pub fn new() -> (fingerprint: Self)
        ensures
            fingerprint.wf(),
            fingerprint@ == Map::<Seq<Seq<u8>>, Seq<u8>>::empty(),
    {
        let fingerprint = TreeFingerprint { entries: Vec::new() };
        assert(fingerprint.pairs() == Seq::<(Seq<Seq<u8>>, Seq<u8>)>::empty());
        fingerprint
    }

    /// The place of `path` among the entries, if it has one.
    fn position(&self, path: &TreePath) -> (at: Option<usize>)
        ensures
            match at {
                Some(i) => i < self.entries@.len() && self.pairs()[i as int].0 == path@,
                None => !has_path(self.pairs(), path@),
            },
    {
        let mut i: usize = 0;
        while i < self.entries.len()
            invariant
                i <= self.entries.len(),
                forall|k: int| 0 <= k < i ==> (#[trigger] self.pairs()[k]).0 != path@,
            decreases self.entries.len() - i,
        {
            if self.entries[i].path.same_as(path) {
                return Some(i);
            }
            i += 1;
        }
        None
    }

    /// The digest of the file at `path`, if the tree has such a file.
    pub fn get(&self, path: &TreePath) -> (digest: Option<Digest>)
        requires
            self.wf(),
        ensures
            self@.contains_key(path@) ==> digest is Some && digest->Some_0@ == self@[path@],
            !self@.contains_key(path@) ==> digest is None,
    {
        proof {
            lemma_pairs_map_keys(self.pairs(), path@);
        }
        match self.position(path) {
            Some(i) => {
                proof {
                    lemma_pairs_map_value(self.pairs(), i as int);
                }
                Some(self.entries[i].digest)
            },
            None => None,
        }
    }

    /// Records `digest` for the file at `path`, in place of an earlier digest
    /// for that path.
    pub fn insert(&mut self, path: &TreePath, digest: Digest)
        requires
            old(self).wf(),
        ensures
            final(self).wf(),
            final(self)@ == old(self)@.insert(path@, digest@),
    {
        let ghost before = self.pairs();
        match self.position(path) {
            Some(i) => {
                self.entries.set(i, FingerprintEntry { path: path.duplicate(), digest });
                proof {
                    assert(self.pairs() == before.update(i as int, (before[i as int].0, digest@)));
                    lemma_pairs_map_update(before, i as int, digest@);
                }
            },
            None => {
                self.entries.push(FingerprintEntry { path: path.duplicate(), digest });
                proof {
                    assert(self.pairs() == before.push((path@, digest@)));
                    lemma_pairs_map_push(before, path@, digest@);
                    assert forall|a: int, b: int| 0 <= a < b < self.pairs().len() implies self.pairs()[a].0
                        != self.pairs()[b].0 by {
                        if b == before.len() {
                            assert(before[a].0 != path@);
                        } else {
                            assert(before[a].0 != before[b].0);
                        }
                    }
                }
            },
        }
    }

    /// Whether every file of this fingerprint is in `other`, with the same
    /// digest.
    fn within(&self, other: &TreeFingerprint) -> (yes: bool)
        requires
            self.wf(),
            other.wf(),
        ensures
            yes == (forall|k: Seq<Seq<u8>>| #[trigger]
                self@.contains_key(k) ==> other@.contains_key(k) && other@[k] == self@[k]),
    {
        let mut i: usize = 0;
        while i < self.entries.len()
            invariant
                i <= self.entries.len(),
                self.wf(),
                other.wf(),
                forall|a: int|
                    0 <= a < i ==> other@.contains_key((#[trigger] self.pairs()[a]).0)
                        && other@[self.pairs()[a].0] == self.pairs()[a].1,
            decreases self.entries.len() - i,
        {
            let entry = &self.entries[i];
            proof {
                lemma_pairs_map_value(self.pairs(), i as int);
            }
            match other.get(&entry.path) {
                Some(digest) => {
                    if !digest.same_as(&entry.digest) {
                        assert(self@.contains_key(entry.path@));
                        return false;
                    }
                },
                None => {
                    assert(self@.contains_key(entry.path@));
                    return false;
                },
            }
            i += 1;
        }
        proof {
            assert forall|k: Seq<Seq<u8>>| #[trigger] self@.contains_key(k) implies other@.contains_key(
                k,
            ) && other@[k] == self@[k] by {
                lemma_pairs_map_keys(self.pairs(), k);
                let a = choose|a: int| 0 <= a < self.pairs().len() && (#[trigger] self.pairs()[a]).0 == k;
                lemma_pairs_map_value(self.pairs(), a);
            }
        }
        true
    }

    /// Whether the two fingerprints are equal: the same files, each with the
    /// same digest.
    pub fn same_as(&self, other: &TreeFingerprint) -> (same: bool)
        requires
            self.wf(),
            other.wf(),
        ensures
            same == (self@ == other@),
    {
        let same = self.within(other) && other.within(self);
        proof {
            if same {
                assert(self@ =~= other@);
            }
        }
        same
    }
}

/// A file of a tree, after an attempt to hash it.
pub struct HashedFile {
    path: TreePath,
    digest: Option<Digest>,
    content: Ghost<Option<Seq<u8>>>,
}

impl HashedFile {
    #[verifier::type_invariant]
    spec fn digest_is_of_content(self) -> bool {
        match (self.digest, self.content@) {
            (Some(digest), Some(content)) => digest@ == blake3_digest(content),
            (None, None) => true,
            _ => false,
        }
    }

    /// The file's path.
    pub closed spec fn path(&self) -> Seq<Seq<u8>> {
        self.path@
    }

    /// The bytes that were hashed, or `None` for a file that could not be
    /// read.
    pub closed spec fn content(&self) -> Option<Seq<u8>> {
        self.content@
    }

    /// The file at `path`, whose content was fed to `hasher`.
    pub fn hashed(path: TreePath, hasher: &FileHasher) -> (file: Self)
        ensures
            file.path() == path@,
            file.content() == Some(hasher.fed()),
    {
        HashedFile { path, digest: Some(hasher.finish()), content: Ghost(Some(hasher.fed())) }
    }

    /// The file at `path`, which could not be read.
    pub fn unreadable(path: TreePath) -> (file: Self)
        ensures
            file.path() == path@,
            file.content() is None,
    {
        HashedFile { path, digest: None, content: Ghost(None) }
    }

    /// The file's digest, if the file was read.
    pub fn digest(&self) -> (digest: Option<Digest>)
        ensures
            self.content() is None ==> digest is None,
            self.content() is Some ==> digest is Some && digest->Some_0@ == blake3_digest(
                self.content()->Some_0,
            ),
    {
        proof {
            use_type_invariant(self);
        }
        self.digest
    }
}

/// The content of each listed file by its path below `root`, or the reason
/// why the listing gives no fingerprint: the first file that could not be
/// read or that lies outside `root`.
pub open spec fn listed_contents(files: Seq<HashedFile>, root: Seq<Seq<u8>>) -> Result<
    Map<Seq<Seq<u8>>, Seq<u8>>,
    SyncError,
>
    decreases files.len(),
{
    if files.len() == 0 {
        Ok(Map::empty())
    } else {
        match listed_contents(files.drop_last(), root) {
            Err(e) => Err(e),
            Ok(contents) => {
                let file = files.last();
                if file.content() is None {
                    Err(SyncError::IoError)
                } else if !under(file.path(), root) {
                    Err(SyncError::PathOutsideRoot)
                } else {
                    Ok(contents.insert(file.path().skip(root.len() as int), file.content()->Some_0))
                }
            },
        }
    }
}

/// The digest of each content.
pub open spec fn digests(contents: Map<Seq<Seq<u8>>, Seq<u8>>) -> Map<Seq<Seq<u8>>, Seq<u8>> {
    contents.map_values(|content: Seq<u8>| blake3_digest(content))
}

/// A listing that is stopped by its first `n` files is stopped by all of
/// them, for the same reason.
pub proof fn lemma_listing_error_sticks(files: Seq<HashedFile>, root: Seq<Seq<u8>>, n: int)
    requires
        0 <= n <= files.len(),
        listed_contents(files.take(n), root) is Err,
    ensures
        listed_contents(files, root) == listed_contents(files.take(n), root),
    decreases files.len() - n,
{
    if n == files.len() {
        assert(files.take(n) == files);
    } else {
        assert(files.take(n + 1).drop_last() == files.take(n));
        lemma_listing_error_sticks(files, root, n + 1);
    }
}

/// Computes the fingerprint of the tree at `root` from its hashed files.
///
/// Fails with `StartupValidation` unless `root` is a directory, with
/// `IoError` if a file could not be read, and with `PathOutsideRoot` if a
/// file does not lie under `root`; of two such files the first decides.
pub fn hash_directory(root: &TreePath, root_kind: Option<EntryKind>, files: &Vec<HashedFile>) -> (out:
    Result<TreeFingerprint, SyncError>)
    ensures
        root_kind != Some(EntryKind::Directory) ==> out is Err && out->Err_0
            == SyncError::StartupValidation,
        root_kind == Some(EntryKind::Directory) ==> match listed_contents(files@, root@) {
            Ok(contents) => out is Ok && out->Ok_0.wf() && out->Ok_0@ == digests(contents),
            Err(e) => out is Err && out->Err_0 == e,
        },
{
    match root_kind {
        Some(EntryKind::Directory) => {},
        _ => { return Err(SyncError::StartupValidation); },
    }
    let mut fingerprint = TreeFingerprint::new();
    let mut i: usize = 0;
    proof {
        assert(digests(Map::<Seq<Seq<u8>>, Seq<u8>>::empty()) =~= Map::<
            Seq<Seq<u8>>,
            Seq<u8>,
        >::empty());
    }
    while i < files.len()
        invariant
            i <= files.len(),
            root_kind == Some(EntryKind::Directory),
            fingerprint.wf(),
            listed_contents(files@.take(i as int), root@) is Ok,
            fingerprint@ == digests(listed_contents(files@.take(i as int), root@)->Ok_0),
        decreases files.len() - i,
    {
        let file = &files[i];
        let ghost so_far = listed_contents(files@.take(i as int), root@)->Ok_0;
        proof {
            assert(files@.take(i + 1).drop_last() == files@.take(i as int));
            assert(files@.take(i + 1).last() == files@[i as int]);
        }
        match file.digest() {
            None => {
                proof {
                    lemma_listing_error_sticks(files@, root@, i + 1);
                }
                return Err(SyncError::IoError);
            },
            Some(digest) => match translate(&file.path, root, &TreePath::empty()) {
                Err(_) => {
                    proof {
                        lemma_listing_error_sticks(files@, root@, i + 1);
                    }
                    return Err(SyncError::PathOutsideRoot);
                },
                Ok(relative) => {
                    fingerprint.insert(&relative, digest);
                    proof {
                        let content = file.content()->Some_0;
                        assert(relative@ == file.path().skip(root@.len() as int));
                        assert(digests(so_far.insert(relative@, content)) =~= digests(
                            so_far,
                        ).insert(relative@, blake3_digest(content)));
                    }
                },
            },
        }
        i += 1;
    }
    assert(files@.take(files.len() as int) == files@);
    Ok(fingerprint)
}

} // verus!
