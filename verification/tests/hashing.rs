use dir_mirror::hasher::{hash_bytes, hash_chunks, Digest, FileHasher};

fn hex(digest: &Digest) -> String {
    let mut out = String::new();
    for b in digest.bytes.iter() {
        out.push_str(&format!("{:02x}", b));
    }
    out
}

#[test]
fn digest_of_nothing_is_the_known_value() {
    let digest = hash_bytes(&[]);
    assert_eq!(
        hex(&digest),
        "af1349b9f5f9a1a6a0404dea36dcc9499bcb25c9adc112b7cc9a93cae41f3262"
    );
}

#[test]
fn digest_agrees_with_the_hash_function() {
    let data = b"the quick brown fox".to_vec();
    let digest = hash_bytes(&data);
    assert_eq!(&digest.bytes, blake3::hash(&data).as_bytes());
}

#[test]
fn chunks_hash_as_their_concatenation() {
    let chunks = vec![b"foo".to_vec(), b"bar".to_vec(), b"baz".to_vec()];
    assert_eq!(hash_chunks(&chunks), hash_bytes(b"foobarbaz"));
    assert_ne!(hash_chunks(&chunks), hash_bytes(b"foobar"));
}

#[test]
fn feeding_in_pieces_changes_nothing() {
    let mut hasher = FileHasher::new();
    hasher.feed(b"v");
    hasher.feed(b"");
    hasher.feed(b"1");
    assert_eq!(hasher.finish(), hash_bytes(b"v1"));
    assert!(hasher.finish().same_as(&hash_bytes(b"v1")));
    assert!(!hasher.finish().same_as(&hash_bytes(b"v2")));
}

#[test]
fn finishing_leaves_the_hasher_usable() {
    let mut hasher = FileHasher::new();
    hasher.feed(b"ab");
    let first = hasher.finish();
    assert_eq!(first, hasher.finish());
    hasher.feed(b"c");
    assert_eq!(hasher.finish(), hash_bytes(b"abc"));
}
