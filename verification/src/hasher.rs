//! Content digests, computed by BLAKE3 over a file's bytes as they stream in.

use vstd::prelude::*;

verus! {

/// `blake3::Hasher`, the incremental hasher. Nothing inside it is looked at.
#[verifier::external_type_specification]
#[verifier::external_body]
pub struct ExHasher(blake3::Hasher);

/// The 32 bytes that BLAKE3, in its plain unkeyed mode, gives for `input`:
/// what `blake3::Hasher::finalize` returns once `input` was taken in.
pub uninterp spec fn blake3_digest(input: Seq<u8>) -> Seq<u8>;

/// The bytes that a hasher has taken in since `blake3::Hasher::new` made it,
/// in the order of the calls of `blake3::Hasher::update`.
pub uninterp spec fn absorbed(hasher: blake3::Hasher) -> Seq<u8>;

/// A running hash of one file, fed chunk by chunk so that the file never has
/// to be held in memory as a whole.
pub struct FileHasher {
    inner: blake3::Hasher,
}

/// `blake3::Hasher::new`: a hasher for the plain, unkeyed hash function that
/// has taken in nothing yet.
#[verifier::external_body]
fn hasher_new() -> (hasher: FileHasher)
    ensures
        absorbed(hasher.inner) == Seq::<u8>::empty(),
{
    FileHasher { inner: blake3::Hasher::new() }
}

/// `blake3::Hasher::update`: appends `input` to what the hasher has taken in.
/// It may be called any number of times, with input of any length.
#[verifier::external_body]
fn hasher_update(hasher: &mut FileHasher, input: &[u8])
    ensures
        absorbed(final(hasher).inner) == absorbed(old(hasher).inner) + input@,
{
    hasher.inner.update(input);
}

/// `blake3::Hasher::finalize`, read through `blake3::Hash::as_bytes`: the
/// digest of everything that a hasher made by `hasher_new` has taken in so
/// far. The hasher is left as it was.
#[verifier::external_body]
fn hasher_finalize(hasher: &FileHasher) -> (bytes: [u8; 32])
    ensures
        bytes@ == blake3_digest(absorbed(hasher.inner)),
{
    *hasher.inner.finalize().as_bytes()
}

/// The digest of a file's content.
#[derive(Clone, Copy, Debug, PartialEq, Eq)]
pub struct Digest {
    pub bytes: [u8; 32],
}

impl View for Digest {
    type V = Seq<u8>;

    open spec fn view(&self) -> Seq<u8> {
        self.bytes@
    }
}

impl Digest {
    /// The digest with the given bytes.
    pub fn from_bytes(bytes: [u8; 32]) -> (digest: Self)
        ensures
            digest.bytes == bytes,
    {
        Digest { bytes }
    }

    /// Whether the two digests have the same bytes.
    pub fn same_as(&self, other: &Digest) -> (same: bool)
        ensures
            same == (self@ == other@),
    {
        let mut i: usize = 0;
        while i < 32
            invariant
                i <= 32,
                forall|k: int| 0 <= k < i ==> self.bytes@[k] == other.bytes@[k],
            decreases 32 - i,
        {
            if self.bytes[i] != other.bytes[i] {
                return false;
            }
            i += 1;
        }
        assert(self@ =~= other@);
        true
    }
}

impl FileHasher {
    /// The bytes fed so far.
    pub closed spec fn fed(&self) -> Seq<u8> {
        absorbed(self.inner)
    }

    /// A hasher that has been fed nothing.
    pub fn new() -> (hasher: Self)
        ensures
            hasher.fed() == Seq::<u8>::empty(),
    {
        hasher_new()
    }

    /// Feeds the next chunk of the file.
    pub fn feed(&mut self, chunk: &[u8])
        ensures
            final(self).fed() == old(self).fed() + chunk@,
    {
        hasher_update(self, chunk);
    }

    /// The digest of what has been fed so far.
    pub fn finish(&self) -> (digest: Digest)
        ensures
            digest@ == blake3_digest(self.fed()),
    {
        Digest { bytes: hasher_finalize(self) }
    }
}

/// The bytes of all chunks, one after the other.
pub open spec fn joined(chunks: Seq<Seq<u8>>) -> Seq<u8>
    decreases chunks.len(),
{
    if chunks.len() == 0 {
        Seq::empty()
    } else {
        joined(chunks.drop_last()) + chunks.last()
    }
}

/// The digest of `data`.
pub fn hash_bytes(data: &[u8]) -> (digest: Digest)
    ensures
        digest@ == blake3_digest(data@),
{
    let mut hasher = FileHasher::new();
    hasher.feed(data);
    assert(hasher.fed() == data@);
    hasher.finish()
}

/// The digest of a content that arrives in chunks: that of the chunks joined.
pub fn hash_chunks(chunks: &Vec<Vec<u8>>) -> (digest: Digest)
    ensures
        digest@ == blake3_digest(joined(Seq::new(chunks@.len(), |i: int| chunks@[i]@))),
{
    let ghost all = Seq::new(chunks@.len(), |i: int| chunks@[i]@);
    let mut hasher = FileHasher::new();
    let mut i: usize = 0;
    while i < chunks.len()
        invariant
            i <= chunks.len(),
            all == Seq::new(chunks@.len(), |i: int| chunks@[i]@),
            hasher.fed() == joined(all.take(i as int)),
        decreases chunks.len() - i,
    {
        hasher.feed(chunks[i].as_slice());
        proof {
            assert(all.take(i + 1).drop_last() == all.take(i as int));
            assert(all.take(i + 1).last() == chunks@[i as int]@);
        }
        i += 1;
    }
    assert(all.take(chunks.len() as int) == all);
    hasher.finish()
}

} // verus!
