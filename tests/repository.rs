use syncust::pathclassifier::{from_path, PathType};
use syncust::paths::{is_within, join, normalized, strip};
use syncust::repofile::{RepoFile, Timestamp};
use syncust::repository::{check_command, Command, RepoError, Repository, Settings};

fn repo(path: &str) -> Repository {
    Repository::default().with_path(path)
}

#[test]
fn default_settings() {
    let s = Settings::default();
    assert_eq!(s.sublayers, 4);
    assert_eq!(s.version, 1);
}

#[test]
fn with_path_keeps_settings() {
    let r = repo("/tmp/r");
    assert_eq!(r.path, "/tmp/r");
    assert_eq!(r.settings, Settings::default());
}

#[test]
fn open_needs_settings() {
    assert_eq!(Repository::open("/r", None).err(), Some(RepoError::NotInitialized));
    let s = Settings { sublayers: 2, version: 1 };
    let r = Repository::open("/r", Some(s)).unwrap();
    assert_eq!(r.path, "/r");
    assert_eq!(r.settings, s);
}

#[test]
fn data_layout_paths() {
    let r = repo("/tmp/r");
    assert_eq!(r.get_data_path(), "/tmp/r/.syncust");
    assert_eq!(r.get_index_path(), "/tmp/r/.syncust/index.rocksdb");
    assert_eq!(r.get_settings_path(), "/tmp/r/.syncust/settings.json");
    assert_eq!(repo("/tmp/r/").get_data_path(), "/tmp/r/.syncust");
    assert_eq!(repo("").get_data_path(), ".syncust");
}

#[test]
fn object_location_uses_sublayers() {
    let r = Repository::open("/r", Some(Settings { sublayers: 2, version: 1 })).unwrap();
    let f = RepoFile {
        hash: Some("abcdef".to_string()),
        is_dir: false,
        is_symlink: false,
        len: 1,
        modified: Timestamp { secs: 0, nanos: 0 },
        permissions: 0,
    };
    assert_eq!(r.object_location(&f), Ok("/r/.syncust/objects/ab/cd/abcdef".to_string()));
}

#[test]
fn strip_path_relative_to_root() {
    let r = repo("/tmp/r");
    assert_eq!(r.strip_path("/tmp/r/a/b.txt"), "a/b.txt");
    assert_eq!(r.strip_path("/tmp/r"), "");
    assert_eq!(r.strip_path("/tmp/rx/a"), "/tmp/rx/a");
    assert_eq!(r.strip_path("/elsewhere"), "/elsewhere");
}

#[test]
fn working_paths_skip_root_and_data_dir() {
    let r = repo("/tmp/r");
    assert!(!r.is_working_path("/tmp/r"));
    assert!(!r.is_working_path("/tmp/r/.syncust"));
    assert!(!r.is_working_path("/tmp/r/.syncust/index.rocksdb/LOG"));
    assert!(r.is_working_path("/tmp/r/.syncustish"));
    assert!(r.is_working_path("/tmp/r/a"));
}

#[test]
fn add_target_refuses_data_dir() {
    let r = repo("/tmp/r");
    assert_eq!(r.add_target("/tmp/r/.syncust/settings.json"), Err(RepoError::InsideDataDir));
    assert_eq!(r.add_target("/tmp/r/dir/hello.txt"), Ok("dir/hello.txt".to_string()));
}

#[test]
fn commands_by_state() {
    assert_eq!(check_command(Command::Init, true, false), Err(RepoError::AlreadyInitialized));
    assert_eq!(check_command(Command::Init, false, false), Ok(()));
    assert_eq!(check_command(Command::Add, false, false), Err(RepoError::NotInitialized));
    assert_eq!(check_command(Command::Status, false, false), Err(RepoError::NotInitialized));
    assert_eq!(check_command(Command::Status, true, false), Ok(()));
    assert_eq!(check_command(Command::Clone, false, true), Err(RepoError::DestinationExists));
    assert_eq!(check_command(Command::Clone, false, false), Ok(()));
    assert_eq!(check_command(Command::Sync, true, false), Err(RepoError::Unsupported));
    assert_eq!(check_command(Command::Watch, true, false), Err(RepoError::Unsupported));
}

#[test]
fn paths_join_and_contain() {
    assert_eq!(join("a", "b"), "a/b");
    assert_eq!(join("a/", "b"), "a/b");
    assert_eq!(join("", "b"), "b");
    assert!(is_within("/a", "/a"));
    assert!(is_within("/a", "/a/b"));
    assert!(!is_within("/a", "/ab"));
    assert!(is_within("/", "/ab"));
    assert_eq!(strip("/", "/ab"), "ab");
}

#[test]
fn every_path_is_local() {
    assert_eq!(from_path("/some/where"), PathType::Local);
    assert_eq!(from_path("host:repo"), PathType::Local);
}

#[test]
fn paths_compare_by_components() {
    assert_eq!(strip("a", "a//x"), "x");
    assert_eq!(strip("a/", "a/x/"), "x");
    assert_eq!(strip("a", "a/"), "");
    assert!(is_within("a/", "a//x"));
    assert!(!is_within("a", "ab/x"));
    assert_eq!(normalized("a//b///"), "a/b");
    assert_eq!(normalized("/"), "/");
    assert_eq!(normalized("//"), "/");
}

#[test]
fn root_in_any_spelling_is_not_a_working_path() {
    let r = repo("a");
    assert!(!r.is_working_path("a/"));
    assert!(!r.is_working_path("a//"));
    assert!(!r.is_working_path("a//.syncust"));
    assert!(!r.is_working_path("a//.syncust/index.rocksdb"));
    assert!(r.is_working_path("a//dir"));
    assert_eq!(r.add_target("a//dir/f"), Ok("dir/f".to_string()));
}
