//! The repository façade: its root, its persisted settings, the layout of its
//! data directory, and the decisions of opening and of adding paths.
use crate::objects::{data_dir_name, locate, object_path, content_addressed, StoreError};
use crate::paths::{is_within, join, join_path, strip, strip_root, within};
use crate::repofile::RepoFile;
use vstd::prelude::*;

verus! {

/// Errors of the repository façade.
#[derive(Clone, Copy, Debug, PartialEq, Eq, Structural)]
pub enum RepoError {
    /// `init` found the data directory in place already.
    AlreadyInitialized,
    /// The data directory is missing.
    NotInitialized,
    /// A clone's destination exists already as a directory.
    DestinationExists,
    /// A path inside the data directory was given to `add`.
    InsideDataDir,
    /// The command is declared but has no behaviour yet.
    Unsupported,
}

/// The commands of the tool.
#[derive(Clone, Copy, Debug, PartialEq, Eq, Structural)]
pub enum Command {
    Init,
    Add,
    Status,
    Clone,
    AddRemote,
    Remote,
    Sync,
    Watch,
    Get,
    Drop,
    Type,
}

/// Whether `command` may run: `init` needs a repository that is not
/// initialized, `add` and `status` one that is, `clone` a destination that is
/// not a directory yet; the other commands are not supported.
pub open spec fn admission(command: Command, initialized: bool, destination_is_dir: bool) -> Result<
    (),
    RepoError,
> {
    match command {
        Command::Init => if initialized {
            Err(RepoError::AlreadyInitialized)
        } else {
            Ok(())
        },
        Command::Add | Command::Status => if initialized {
            Ok(())
        } else {
            Err(RepoError::NotInitialized)
        },
        Command::Clone => if destination_is_dir {
            Err(RepoError::DestinationExists)
        } else {
            Ok(())
        },
        _ => Err(RepoError::Unsupported),
    }
}

/// Decides whether `command` may run, given whether the repository's data
/// directory exists and, for a clone, whether the destination is a directory.
pub fn check_command(command: Command, initialized: bool, destination_is_dir: bool) -> (r: Result<
    (),
    RepoError,
>)
    ensures
        r == admission(command, initialized, destination_is_dir),
{
    match command {
        Command::Init => if initialized {
            Err(RepoError::AlreadyInitialized)
        } else {
            Ok(())
        },
        Command::Add | Command::Status => if initialized {
            Ok(())
        } else {
            Err(RepoError::NotInitialized)
        },
        Command::Clone => if destination_is_dir {
            Err(RepoError::DestinationExists)
        } else {
            Ok(())
        },
        _ => Err(RepoError::Unsupported),
    }
}

/// Settings fixed when a repository is created.
#[derive(Clone, Copy, Debug, PartialEq, Eq, Structural)]
pub struct Settings {
    /// Number of nested two-character shard levels in the object store.
    pub sublayers: usize,
    /// Format version of the repository.
    pub version: usize,
}

impl Default for Settings {
    fn default() -> (r: Settings)
        ensures
            r.sublayers == 4,
            r.version == 1,
    {
        Settings { sublayers: 4, version: 1 }
    }
}

pub open spec fn index_dir_name() -> Seq<char> {
    seq!['i', 'n', 'd', 'e', 'x', '.', 'r', 'o', 'c', 'k', 's', 'd', 'b']
}

pub open spec fn settings_file_name() -> Seq<char> {
    seq!['s', 'e', 't', 't', 'i', 'n', 'g', 's', '.', 'j', 's', 'o', 'n']
}

/// A repository: its root directory and its settings.
#[derive(Clone, Debug)]
pub struct Repository {
    pub path: String,
    pub settings: Settings,
}

impl Default for Repository {
    fn default() -> (r: Repository)
        ensures
            r.path@ == Seq::<char>::empty(),
            r.settings.sublayers == 4,
            r.settings.version == 1,
    {
        Repository { path: String::new(), settings: Settings::default() }
    }
}

impl Repository {
    /// The data directory under `root`.
    pub open spec fn data_path_of(root: Seq<char>) -> Seq<char> {
        join_path(root, data_dir_name())
    }

    /// The same repository, rooted at `path`.
    pub fn with_path(self, path: &str) -> (r: Repository)
        ensures
            r.path@ == path@,
            r.settings == self.settings,
    {
        Repository { path: path.to_owned(), ..self }
    }

    /// Opens the repository at `path`. `stored_settings` holds the settings
    /// read from its data directory, or `None` where that directory is
    /// missing, which is the one sign of an uninitialized repository.
    pub fn open(path: &str, stored_settings: Option<Settings>) -> (r: Result<Repository, RepoError>)
        ensures
            match stored_settings {
                None => r == Err::<Repository, RepoError>(RepoError::NotInitialized),
                Some(s) => r is Ok && r->Ok_0.path@ == path@ && r->Ok_0.settings == s,
            },
    {
        match stored_settings {
            None => Err(RepoError::NotInitialized),
            Some(settings) => {
                let repository = Repository::default().with_path(path);
                Ok(Repository { settings, ..repository })
            },
        }
    }

    /// The private data directory, `<root>/.syncust`.
    pub fn get_data_path(&self) -> (r: String)
        ensures
            r@ == Self::data_path_of(self.path@),
    {
        proof {
            reveal_strlit(".syncust");
        }
        assert(".syncust"@ =~= data_dir_name());
        join(self.path.as_str(), ".syncust")
    }

    /// Where the index keeps its files, inside the data directory.
    pub fn get_index_path(&self) -> (r: String)
        ensures
            r@ == join_path(Self::data_path_of(self.path@), index_dir_name()),
    {
        proof {
            reveal_strlit("index.rocksdb");
        }
        assert("index.rocksdb"@ =~= index_dir_name());
        let data = self.get_data_path();
        join(data.as_str(), "index.rocksdb")
    }

    /// Where the settings are kept, inside the data directory.
    pub fn get_settings_path(&self) -> (r: String)
        ensures
            r@ == join_path(Self::data_path_of(self.path@), settings_file_name()),
    {
        proof {
            reveal_strlit("settings.json");
        }
        assert("settings.json"@ =~= settings_file_name());
        let data = self.get_data_path();
        join(data.as_str(), "settings.json")
    }

    /// Where the object store keeps the content of `record`.
    pub fn object_location(&self, record: &RepoFile) -> (r: Result<String, StoreError>)
        ensures
            match r {
                Ok(p) => {
                    &&& content_addressed(record@)
                    &&& 2 * self.settings.sublayers <= record@.hash->0.len()
                    &&& p@ == join_path(
                        Self::data_path_of(self.path@),
                        object_path(record@.hash->0, self.settings.sublayers as nat),
                    )
                },
                Err(StoreError::NoDigest) => !content_addressed(record@),
                Err(StoreError::InsufficientDigestLength) => {
                    &&& content_addressed(record@)
                    &&& record@.hash->0.len() < 2 * self.settings.sublayers
                },
            },
    {
        let object = locate(record, self.settings.sublayers)?;
        let data = self.get_data_path();
        Ok(join(data.as_str(), object.as_str()))
    }

    /// Whether `path` lies in the data directory.
    pub fn in_data_dir(&self, path: &str) -> (r: bool)
        ensures
            r == within(Self::data_path_of(self.path@), path@),
    {
        let data = self.get_data_path();
        is_within(data.as_str(), path)
    }

    /// `path` relative to the repository root; a path outside the root is
    /// left as it is.
    pub fn strip_path(&self, path: &str) -> (r: String)
        ensures
            r@ == strip_root(self.path@, path@),
    {
        strip(self.path.as_str(), path)
    }

    /// Whether a path met while walking the working tree is visited: the
    /// root itself (in any spelling, as a path that strips to nothing) and
    /// anything in the data directory are not.
    pub fn is_working_path(&self, path: &str) -> (r: bool)
        ensures
            r == (strip_root(self.path@, path@).len() > 0 && !within(
                Self::data_path_of(self.path@),
                path@,
            )),
    {
        let key = self.strip_path(path);
        key.unicode_len() > 0 && !self.in_data_dir(path)
    }

    /// The index key under which `file_path` is added: the path relative to
    /// the root. A path in the data directory is refused.
    pub fn add_target(&self, file_path: &str) -> (r: Result<String, RepoError>)
        ensures
            within(Self::data_path_of(self.path@), file_path@) ==> r == Err::<String, RepoError>(
                RepoError::InsideDataDir,
            ),
            !within(Self::data_path_of(self.path@), file_path@) ==> r is Ok && r->Ok_0@
                == strip_root(self.path@, file_path@),
    {
        if self.in_data_dir(file_path) {
            Err(RepoError::InsideDataDir)
        } else {
            Ok(self.strip_path(file_path))
        }
    }
}

} // verus!
