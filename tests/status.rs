use syncust::repofile::{FileMeta, RepoFile, Timestamp};
use syncust::repostatus::{classify, probe, Outcome, Probe, RepoStatus};

fn meta(secs: i64) -> FileMeta {
    FileMeta {
        is_dir: false,
        is_symlink: false,
        len: 2,
        modified: Timestamp { secs, nanos: 0 },
        permissions: 0o644,
    }
}

#[test]
fn untracked_when_no_record() {
    assert_eq!(probe(&None, None), Probe::Untracked);
    let live = RepoFile::from_metadata(&meta(1), b"hi");
    assert_eq!(classify(&None, &live), Outcome::Untracked);
}

#[test]
fn unchanged_when_mtime_same() {
    let stored = RepoFile::from_metadata(&meta(1), b"hi");
    assert_eq!(probe(&Some(stored.clone()), Some(Timestamp { secs: 1, nanos: 0 })), Probe::Unchanged);
    assert_eq!(classify(&Some(stored.clone()), &stored), Outcome::Unchanged);
}

#[test]
fn touched_with_same_bytes_is_unchanged() {
    let stored = Some(RepoFile::from_metadata(&meta(1), b"hi"));
    assert_eq!(probe(&stored, Some(Timestamp { secs: 2, nanos: 0 })), Probe::Rehash);
    let live = RepoFile::from_metadata(&meta(2), b"hi");
    assert_eq!(classify(&stored, &live), Outcome::Unchanged);
}

#[test]
fn changed_bytes_are_reported() {
    let stored = Some(RepoFile::from_metadata(&meta(1), b"hi"));
    assert_eq!(probe(&stored, Some(Timestamp { secs: 3, nanos: 0 })), Probe::Rehash);
    let live = RepoFile::from_metadata(&meta(3), b"bye");
    assert_eq!(classify(&stored, &live), Outcome::Changed);
}

#[test]
fn nanosecond_change_triggers_rehash() {
    let stored = Some(RepoFile::from_metadata(&meta(1), b"hi"));
    assert_eq!(probe(&stored, Some(Timestamp { secs: 1, nanos: 1 })), Probe::Rehash);
}

#[test]
fn note_keeps_sorted_sets() {
    let mut s = RepoStatus::new();
    s.note("b".to_string(), Outcome::Untracked);
    s.note("a".to_string(), Outcome::Untracked);
    s.note("b".to_string(), Outcome::Untracked);
    s.note("c".to_string(), Outcome::Changed);
    s.note("d".to_string(), Outcome::Unchanged);
    assert_eq!(s.untracked_paths, vec!["a", "b"]);
    assert_eq!(s.changed_paths, vec!["c"]);
    assert_eq!(s.paths_count, 0);
}

#[test]
fn render_counts_only() {
    let mut s = RepoStatus::new();
    s.paths_count = 2;
    assert_eq!(s.render(), "Paths Tracked: 2");
}

#[test]
fn render_with_blocks() {
    let mut s = RepoStatus::new();
    s.paths_count = 105;
    s.note("x/y".to_string(), Outcome::Untracked);
    s.note("hello.txt".to_string(), Outcome::Changed);
    assert_eq!(
        s.render(),
        "Paths Tracked: 105\nUntracked Paths:\n\t\"x/y\"\n\nChanged Paths:\n\t\"hello.txt\"\n"
    );
}

#[test]
fn kind_change_is_reported() {
    let stored = Some(RepoFile::from_metadata(&meta(1), b""));
    let mut m = meta(2);
    m.is_dir = true;
    let live = RepoFile::from_metadata(&m, b"");
    assert_eq!(classify(&stored, &live), Outcome::Changed);
}

#[test]
fn untracked_probe_needs_no_metadata() {
    let stored = Some(RepoFile::from_metadata(&meta(1), b"hi"));
    assert_eq!(probe(&None, Some(Timestamp { secs: 1, nanos: 0 })), Probe::Untracked);
    assert_eq!(probe(&stored, Some(Timestamp { secs: -5, nanos: 0 })), Probe::Rehash);
}

#[test]
fn render_quotes_and_escapes_paths() {
    let mut s = RepoStatus::new();
    s.note("say \"hi\"".to_string(), Outcome::Untracked);
    assert_eq!(s.render(), "Paths Tracked: 0\nUntracked Paths:\n\t\"say \\\"hi\\\"\"\n");
}

#[test]
fn paths_sort_component_by_component() {
    let mut s = RepoStatus::new();
    for p in ["a.txt", "b", "a/b", "aa", "a"] {
        s.note(p.to_string(), Outcome::Changed);
    }
    assert_eq!(s.changed_paths, vec!["a", "a/b", "a.txt", "aa", "b"]);
}
