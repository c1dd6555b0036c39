use syncust::repofile::{FileMeta, RepoFile, Timestamp};

fn meta(is_dir: bool, is_symlink: bool) -> FileMeta {
    FileMeta {
        is_dir,
        is_symlink,
        len: 3,
        modified: Timestamp { secs: 1_500_000_000, nanos: 42 },
        permissions: 0o100644,
    }
}

#[test]
fn regular_file_gets_sha256_hex() {
    let r = RepoFile::from_metadata(&meta(false, false), b"abc");
    assert_eq!(
        r.hash.as_deref(),
        Some("ba7816bf8f01cfea414140de5dae2223b00361a396177a9cb410ff61f20015ad")
    );
    assert_eq!(r.len, 3);
    assert_eq!(r.modified, Timestamp { secs: 1_500_000_000, nanos: 42 });
    assert_eq!(r.permissions, 0o100644);
    assert!(!r.is_dir && !r.is_symlink);
}

#[test]
fn empty_file_digest() {
    let r = RepoFile::from_metadata(&meta(false, false), b"");
    assert_eq!(
        r.hash.as_deref(),
        Some("e3b0c44298fc1c149afbf4c8996fb92427ae41e4649b934ca495991b7852b855")
    );
}

#[test]
fn directories_and_symlinks_have_no_digest() {
    assert_eq!(RepoFile::from_metadata(&meta(true, false), b"abc").hash, None);
    assert_eq!(RepoFile::from_metadata(&meta(false, true), b"abc").hash, None);
}

#[test]
fn needs_digest_only_for_regular_files() {
    assert!(meta(false, false).needs_digest());
    assert!(!meta(true, false).needs_digest());
    assert!(!meta(false, true).needs_digest());
}

#[test]
fn digest_is_lower_hex() {
    let r = RepoFile::from_metadata(&meta(false, false), b"some bytes");
    let h = r.hash.unwrap();
    assert_eq!(h.len(), 64);
    assert!(h.chars().all(|c| c.is_ascii_digit() || ('a'..='f').contains(&c)));
}
