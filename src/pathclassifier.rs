//! Classifies where a repository lives, to pick how it is cloned.
use vstd::prelude::*;

verus! {

/// The transport that reaches a repository.
#[derive(Clone, Copy, Debug, PartialEq, Eq, Structural)]
pub enum PathType {
    /// A path of the local filesystem.
    Local,
}

/// Classifies `path`. Only local paths are known, so every path is local.
pub fn from_path(path: &str) -> (r: PathType)
    ensures
        r == PathType::Local,
{
    PathType::Local
}

} // verus!
