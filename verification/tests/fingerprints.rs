use dir_mirror::error::{EntryKind, SyncError};
use dir_mirror::fingerprint::{hash_directory, HashedFile, TreeFingerprint};
use dir_mirror::hasher::{hash_bytes, FileHasher};
use dir_mirror::path::TreePath;

fn p(text: &str) -> TreePath {
    TreePath::new(
        text.split('/')
            .filter(|part| !part.is_empty())
            .map(|part| part.as_bytes().to_vec())
            .collect(),
    )
}

fn hashed(path: &str, content: &[u8]) -> HashedFile {
    let mut hasher = FileHasher::new();
    hasher.feed(content);
    HashedFile::hashed(p(path), &hasher)
}

#[test]
fn a_fingerprint_maps_relative_paths_to_digests() {
    let files = vec![hashed("/w/a.txt", b"v1"), hashed("/w/d/b.txt", b"two")];
    let fingerprint = hash_directory(&p("/w"), Some(EntryKind::Directory), &files).unwrap();
    assert_eq!(fingerprint.get(&p("a.txt")), Some(hash_bytes(b"v1")));
    assert_eq!(fingerprint.get(&p("d/b.txt")), Some(hash_bytes(b"two")));
    assert_eq!(fingerprint.get(&p("/w/a.txt")), None);
    assert_eq!(fingerprint.get(&p("b.txt")), None);
}

#[test]
fn hashing_needs_a_directory() {
    let files = vec![hashed("/w/a.txt", b"v1")];
    assert!(matches!(
        hash_directory(&p("/w"), None, &files),
        Err(SyncError::StartupValidation)
    ));
    assert!(matches!(
        hash_directory(&p("/w"), Some(EntryKind::File), &files),
        Err(SyncError::StartupValidation)
    ));
    assert!(matches!(
        hash_directory(&p("/w"), Some(EntryKind::Symlink), &vec![]),
        Err(SyncError::StartupValidation)
    ));
}

#[test]
fn a_file_that_could_not_be_read_fails_the_hashing() {
    let files = vec![
        hashed("/w/a.txt", b"v1"),
        HashedFile::unreadable(p("/w/gone.txt")),
        hashed("/w/c.txt", b"v3"),
    ];
    assert!(matches!(
        hash_directory(&p("/w"), Some(EntryKind::Directory), &files),
        Err(SyncError::IoError)
    ));
}

#[test]
fn a_file_outside_the_root_fails_the_hashing() {
    let files = vec![hashed("/w/a.txt", b"v1"), hashed("/x/b.txt", b"v2")];
    assert!(matches!(
        hash_directory(&p("/w"), Some(EntryKind::Directory), &files),
        Err(SyncError::PathOutsideRoot)
    ));
}

#[test]
fn the_first_bad_file_decides_the_error() {
    let files = vec![hashed("/x/b.txt", b"v2"), HashedFile::unreadable(p("/w/gone.txt"))];
    assert!(matches!(
        hash_directory(&p("/w"), Some(EntryKind::Directory), &files),
        Err(SyncError::PathOutsideRoot)
    ));
    let files = vec![HashedFile::unreadable(p("/w/gone.txt")), hashed("/x/b.txt", b"v2")];
    assert!(matches!(
        hash_directory(&p("/w"), Some(EntryKind::Directory), &files),
        Err(SyncError::IoError)
    ));
}

#[test]
fn an_empty_directory_has_the_empty_fingerprint() {
    let fingerprint = hash_directory(&p("/w"), Some(EntryKind::Directory), &vec![]).unwrap();
    assert!(fingerprint.same_as(&TreeFingerprint::new()));
    assert_eq!(fingerprint.get(&p("a")), None);
}

#[test]
fn a_file_listed_twice_counts_with_its_last_digest() {
    let files = vec![hashed("/w/a.txt", b"old"), hashed("/w/a.txt", b"new")];
    let fingerprint = hash_directory(&p("/w"), Some(EntryKind::Directory), &files).unwrap();
    assert_eq!(fingerprint.get(&p("a.txt")), Some(hash_bytes(b"new")));
    let once = hash_directory(
        &p("/w"),
        Some(EntryKind::Directory),
        &vec![hashed("/w/a.txt", b"new")],
    )
    .unwrap();
    assert!(fingerprint.same_as(&once));
}

#[test]
fn equal_trees_under_different_roots_have_equal_fingerprints() {
    let work = vec![hashed("/w/a.txt", b"v1"), hashed("/w/d/b.txt", b"two")];
    let backup = vec![hashed("/mnt/b/d/b.txt", b"two"), hashed("/mnt/b/a.txt", b"v1")];
    let left = hash_directory(&p("/w"), Some(EntryKind::Directory), &work).unwrap();
    let right = hash_directory(&p("/mnt/b"), Some(EntryKind::Directory), &backup).unwrap();
    assert!(left.same_as(&right));
    assert!(right.same_as(&left));
}

#[test]
fn fingerprints_differ_by_content_by_path_and_by_number_of_files() {
    let base = hash_directory(
        &p("/w"),
        Some(EntryKind::Directory),
        &vec![hashed("/w/a.txt", b"v1")],
    )
    .unwrap();
    let other_content = hash_directory(
        &p("/w"),
        Some(EntryKind::Directory),
        &vec![hashed("/w/a.txt", b"v2")],
    )
    .unwrap();
    let other_path = hash_directory(
        &p("/w"),
        Some(EntryKind::Directory),
        &vec![hashed("/w/b.txt", b"v1")],
    )
    .unwrap();
    let more = hash_directory(
        &p("/w"),
        Some(EntryKind::Directory),
        &vec![hashed("/w/a.txt", b"v1"), hashed("/w/b.txt", b"v1")],
    )
    .unwrap();
    assert!(!base.same_as(&other_content));
    assert!(!base.same_as(&other_path));
    assert!(!base.same_as(&more));
    assert!(!more.same_as(&base));
    assert!(base.same_as(&base));
}

#[test]
fn insert_adds_and_replaces() {
    let mut fingerprint = TreeFingerprint::new();
    fingerprint.insert(&p("a"), hash_bytes(b"1"));
    fingerprint.insert(&p("b"), hash_bytes(b"2"));
    assert_eq!(fingerprint.get(&p("a")), Some(hash_bytes(b"1")));
    fingerprint.insert(&p("a"), hash_bytes(b"3"));
    assert_eq!(fingerprint.get(&p("a")), Some(hash_bytes(b"3")));
    assert_eq!(fingerprint.get(&p("b")), Some(hash_bytes(b"2")));
}

#[test]
fn a_hashed_file_carries_the_digest_of_what_was_fed() {
    let file = hashed("/w/a.txt", b"some content");
    assert_eq!(file.digest(), Some(hash_bytes(b"some content")));
    assert_eq!(HashedFile::unreadable(p("/w/a.txt")).digest(), None);
}
