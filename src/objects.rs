//! Layout of the content-addressed object store: where a record's bytes are
//! kept, how the file's own path refers to them, and what storing one takes.
use crate::chunker::{chunks_of, Chunker};
use crate::repofile::{RepoFile, RepoFileView};
use vstd::prelude::*;

verus! {

/// Why a record has no place in the object store.
#[derive(Clone, Copy, Debug, PartialEq, Eq, Structural)]
pub enum StoreError {
    /// The record is a directory or a symlink, or carries no digest.
    NoDigest,
    /// The digest is shorter than the shard levels need.
    InsufficientDigestLength,
}

/// A record is stored by content when it is a regular file with a digest.
pub open spec fn content_addressed(r: RepoFileView) -> bool {
    r.hash is Some && !r.is_dir && !r.is_symlink
}

pub open spec fn objects_dir_name() -> Seq<char> {
    seq!['o', 'b', 'j', 'e', 'c', 't', 's']
}

pub open spec fn data_dir_name() -> Seq<char> {
    seq!['.', 's', 'y', 'n', 'c', 'u', 's', 't']
}

/// `objects` followed by the first `depth` two-character shards of `h`.
pub open spec fn shard_dirs(h: Seq<char>, depth: nat) -> Seq<char>
    decreases depth,
{
    if depth == 0 {
        objects_dir_name()
    } else {
        shard_dirs(h, (depth - 1) as nat) + seq!['/'] + h.subrange(
            2 * (depth - 1) as int,
            2 * depth as int,
        )
    }
}

/// Where the object with digest `h` lives, relative to the data directory:
/// `objects/h[0..2]/h[2..4]/.../h`.
pub open spec fn object_path(h: Seq<char>, depth: nat) -> Seq<char> {
    shard_dirs(h, depth) + seq!['/'] + h
}

/// How many `/` separators `s` holds.
pub open spec fn slash_count(s: Seq<char>) -> nat
    decreases s.len(),
{
    if s.len() == 0 {
        0
    } else {
        slash_count(s.drop_last()) + if s.last() == '/' {
            1nat
        } else {
            0nat
        }
    }
}

/// `n` copies of `../`.
pub open spec fn parent_steps(n: nat) -> Seq<char>
    decreases n,
{
    if n == 0 {
        Seq::empty()
    } else {
        parent_steps((n - 1) as nat) + seq!['.', '.', '/']
    }
}

/// The relative link placed at `rel_path` (relative to the repository root)
/// that reaches the object at `object` (relative to the data directory):
/// one `../` for each directory above the file, then the data directory.
pub open spec fn link_target_of(rel_path: Seq<char>, object: Seq<char>) -> Seq<char> {
    parent_steps(slash_count(rel_path)) + data_dir_name() + seq!['/'] + object
}

/// With four shard levels the object of digest `h` lives at
/// `objects/h[0..2]/h[2..4]/h[4..6]/h[6..8]/h`.
pub proof fn lemma_four_levels(h: Seq<char>)
    ensures
        object_path(h, 4) == objects_dir_name() + seq!['/'] + h.subrange(0, 2) + seq!['/']
            + h.subrange(2, 4) + seq!['/'] + h.subrange(4, 6) + seq!['/'] + h.subrange(6, 8)
            + seq!['/'] + h,
{
    reveal_with_fuel(shard_dirs, 5);
    assert(object_path(h, 4) =~= objects_dir_name() + seq!['/'] + h.subrange(0, 2) + seq!['/']
        + h.subrange(2, 4) + seq!['/'] + h.subrange(4, 6) + seq!['/'] + h.subrange(6, 8) + seq![
        '/',
    ] + h);
}

/// What storing a record takes, given whether its object is already there.
#[derive(Clone, Copy, Debug, PartialEq, Eq, Structural)]
pub enum StoreAction {
    /// Directories and symlinks are never stored by content.
    Skip,
    /// Move the bytes into the store, then link the file's path to them.
    MoveAndLink,
    /// Identical content is stored already: drop the source and link it.
    LinkOnly,
}

/// The store location of a record, relative to the data directory.
pub fn locate(record: &RepoFile, shard_depth: usize) -> (r: Result<String, StoreError>)
    ensures
        match r {
            Ok(p) => {
                &&& content_addressed(record@)
                &&& 2 * shard_depth <= record@.hash->0.len()
                &&& p@ == object_path(record@.hash->0, shard_depth as nat)
            },
            Err(StoreError::NoDigest) => !content_addressed(record@),
            Err(StoreError::InsufficientDigestLength) => {
                &&& content_addressed(record@)
                &&& record@.hash->0.len() < 2 * shard_depth
            },
        },
{
    if record.is_dir || record.is_symlink {
        return Err(StoreError::NoDigest);
    }
    match &record.hash {
        None => Err(StoreError::NoDigest),
        Some(h) => {
            let n = h.as_str().unicode_len();
            if shard_depth > n / 2 {
                return Err(StoreError::InsufficientDigestLength);
            }
            let mut chunker = Chunker::new(h.as_str(), 2);
            let ghost all = chunks_of(h@, 2);
            let mut path = String::from_str("objects");
            proof {
                reveal_strlit("objects");
                reveal_strlit("/");
            }
            assert(path@ =~= shard_dirs(h@, 0));
            let mut i: usize = 0;
            while i < shard_depth
                invariant
                    i <= shard_depth,
                    shard_depth <= n / 2,
                    n == h@.len(),
                    all == chunks_of(h@, 2),
                    chunker.wf(),
                    chunker@ == all.skip(i as int),
                    path@ == shard_dirs(h@, i as nat),
                decreases shard_depth - i,
            {
                let next = chunker.next();
                match next {
                    Some(piece) => {
                        assert(piece@ == h@.subrange(2 * i, 2 * i + 2));
                        let ghost before = path@;
                        path.append("/");
                        path.append(piece.as_str());
                        proof {
                            reveal_strlit("/");
                        }
                        assert("/"@ =~= seq!['/']);
                        assert(path@ =~= before + seq!['/'] + h@.subrange(2 * i, 2 * i + 2));
                        assert(path@ =~= shard_dirs(h@, (i + 1) as nat));
                        assert(chunker@ =~= all.skip(i + 1));
                        i = i + 1;
                    },
                    None => {
                        assert(false);
                    },
                }
            }
            path.append("/");
            path.append(h.as_str());
            Ok(path)
        },
    }
}

/// Decides how a record is stored, given whether its object location is
/// occupied already. Existing content counts as success: that is what
/// deduplicates equal files.
pub fn store_action(record: &RepoFile, object_exists: bool) -> (r: StoreAction)
    ensures
        r == (if record.is_dir || record.is_symlink {
            StoreAction::Skip
        } else if object_exists {
            StoreAction::LinkOnly
        } else {
            StoreAction::MoveAndLink
        }),
{
    if record.is_dir || record.is_symlink {
        StoreAction::Skip
    } else if object_exists {
        StoreAction::LinkOnly
    } else {
        StoreAction::MoveAndLink
    }
}

/// The symlink target for `rel_path` (relative to the repository root) that
/// leads to the object at `object` (relative to the data directory). It
/// climbs only as far as the repository root.
pub fn link_target(rel_path: &str, object: &str) -> (r: String)
    ensures
        r@ == link_target_of(rel_path@, object@),
{
    let n = rel_path.unicode_len();
    let mut r = String::new();
    let mut i: usize = 0;
    proof {
        reveal_strlit("../");
        reveal_strlit(".syncust/");
    }
    while i < n
        invariant
            i <= n,
            n == rel_path@.len(),
            r@ == parent_steps(slash_count(rel_path@.subrange(0, i as int))),
        decreases n - i,
    {
        let c = rel_path.get_char(i);
        assert(rel_path@.subrange(0, i + 1).drop_last() =~= rel_path@.subrange(0, i as int));
        if c == '/' {
            r.append("../");
            proof {
                reveal_strlit("../");
            }
            assert("../"@ =~= seq!['.', '.', '/']);
        }
        assert(r@ =~= parent_steps(slash_count(rel_path@.subrange(0, i + 1))));
        i = i + 1;
    }
    assert(rel_path@.subrange(0, n as int) =~= rel_path@);
    r.append(".syncust/");
    r.append(object);
    assert(r@ =~= link_target_of(rel_path@, object@));
    r
}

} // verus!
