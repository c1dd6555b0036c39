//! The metadata record kept for every tracked path.
use vstd::prelude::*;

verus! {

/// The SHA-256 digest of `data`, written as lower-case hex digits.
pub uninterp spec fn sha256_hex_of(data: Seq<u8>) -> Seq<char>;

/// A digit of lower-case hexadecimal.
pub open spec fn is_lower_hex_digit(c: char) -> bool {
    ('0' <= c && c <= '9') || ('a' <= c && c <= 'f')
}

/// Relies on `sha2::Sha256::digest` for the digest of the bytes and on
/// generic-array's `LowerHex`, which writes two hex digits for each of its
/// 32 bytes, taken from `0123456789abcdef`.
#[verifier::external_body]
fn sha256_hex(data: &[u8]) -> (r: String)
    ensures
        r@ == sha256_hex_of(data@),
        r@.len() == 64,
        forall|i: int| 0 <= i < r@.len() ==> is_lower_hex_digit(#[trigger] r@[i]),
{
    format!("{:x}", <sha2::Sha256 as sha2::Digest>::digest(data))
}

/// A modification time: whole seconds relative to the Unix epoch (negative
/// before it), then the nanoseconds past those seconds.
#[derive(Clone, Copy, Debug, PartialEq, Eq, Structural)]
pub struct Timestamp {
    pub secs: i64,
    pub nanos: u32,
}

/// What the filesystem reports of one path, without following symlinks.
#[derive(Clone, Copy, Debug, PartialEq, Eq, Structural)]
pub struct FileMeta {
    pub is_dir: bool,
    pub is_symlink: bool,
    pub len: u64,
    pub modified: Timestamp,
    pub permissions: u32,
}

/// Only regular files are addressed by content: directories and symlinks
/// carry no digest.
pub open spec fn needs_digest(is_dir: bool, is_symlink: bool) -> bool {
    !is_dir && !is_symlink
}

impl FileMeta {
    /// Whether the content of this path is hashed.
    pub fn needs_digest(&self) -> (r: bool)
        ensures
            r == needs_digest(self.is_dir, self.is_symlink),
    {
        !self.is_dir && !self.is_symlink
    }
}

/// The record stored for one tracked path.
#[derive(Clone, Debug, PartialEq, Eq)]
pub struct RepoFile {
    pub hash: Option<String>,
    pub is_dir: bool,
    pub is_symlink: bool,
    pub len: u64,
    pub modified: Timestamp,
    pub permissions: u32,
}

/// A record with its digest as a character sequence.
pub struct RepoFileView {
    pub hash: Option<Seq<char>>,
    pub is_dir: bool,
    pub is_symlink: bool,
    pub len: u64,
    pub modified: Timestamp,
    pub permissions: u32,
}

pub open spec fn opt_str_view(s: Option<String>) -> Option<Seq<char>> {
    match s {
        Some(h) => Some(h@),
        None => None,
    }
}

impl View for RepoFile {
    type V = RepoFileView;

    open spec fn view(&self) -> RepoFileView {
        RepoFileView {
            hash: opt_str_view(self.hash),
            is_dir: self.is_dir,
            is_symlink: self.is_symlink,
            len: self.len,
            modified: self.modified,
            permissions: self.permissions,
        }
    }
}

/// The record that describes a path with metadata `meta` and content
/// `contents` (the content is read only for regular files).
pub open spec fn record_of(meta: FileMeta, contents: Seq<u8>) -> RepoFileView {
    RepoFileView {
        hash: if needs_digest(meta.is_dir, meta.is_symlink) {
            Some(sha256_hex_of(contents))
        } else {
            None
        },
        is_dir: meta.is_dir,
        is_symlink: meta.is_symlink,
        len: meta.len,
        modified: meta.modified,
        permissions: meta.permissions,
    }
}

impl RepoFile {
    /// A digest is present exactly for regular files.
    pub open spec fn wf(&self) -> bool {
        self.hash is Some <==> needs_digest(self.is_dir, self.is_symlink)
    }

    /// Builds the record of a path from its metadata and, for a regular
    /// file, its content. `contents` is ignored for directories and symlinks.
    pub fn from_metadata(meta: &FileMeta, contents: &[u8]) -> (r: RepoFile)
        ensures
            r@ == record_of(*meta, contents@),
            r.wf(),
            r.hash is Some ==> r.hash->0@.len() == 64,
            r.hash is Some ==> forall|i: int|
                0 <= i < r.hash->0@.len() ==> is_lower_hex_digit(#[trigger] r.hash->0@[i]),
    {
        let hash = if meta.needs_digest() {
            Some(sha256_hex(contents))
        } else {
            None
        };
        RepoFile {
            hash,
            is_dir: meta.is_dir,
            is_symlink: meta.is_symlink,
            len: meta.len,
            modified: meta.modified,
            permissions: meta.permissions,
        }
    }
}

} // verus!
