//! The status report: how each walked path compares with its index record,
//! and the ordered sets of untracked and changed paths.
use crate::repofile::{
    needs_digest, opt_str_view, record_of, sha256_hex_of, FileMeta, RepoFile, RepoFileView, Timestamp,
};
use crate::paths::{lemma_path_less_total, lemma_path_less_transitive, path_less, path_precedes};
use vstd::prelude::*;

verus! {

/// Strictly ascending: an ordered set of paths.
pub open spec fn ascending(v: Seq<String>) -> bool {
    forall|i: int, j: int| 0 <= i < j < v.len() ==> path_less(#[trigger] v[i]@, #[trigger] v[j]@)
}

/// The paths that `v` holds.
pub open spec fn path_set(v: Seq<String>) -> Set<Seq<char>> {
    Set::new(|x: Seq<char>| exists|i: int| 0 <= i < v.len() && v[i]@ == x)
}

/// Adds `path` to the ordered set `v`, keeping it ascending.
fn insert_sorted(v: &mut Vec<String>, path: String)
    requires
        ascending(old(v)@),
    ensures
        ascending(final(v)@),
        path_set(final(v)@) == path_set(old(v)@).insert(path@),
{
    let n = v.len();
    let mut i: usize = 0;
    while i < n && path_precedes(v[i].as_str(), path.as_str())
        invariant
            i <= n,
            n == v@.len(),
            v@ == old(v)@,
            ascending(v@),
            forall|j: int| 0 <= j < i ==> path_less(#[trigger] v@[j]@, path@),
        decreases n - i,
    {
        i = i + 1;
    }
    if i < n && crate::paths::same_str(v[i].as_str(), path.as_str()) {
        assert(path_set(v@) =~= path_set(old(v)@).insert(path@));
        return;
    }
    proof {
        if i < n {
            lemma_path_less_total(v@[i as int]@, path@);
        }
        assert forall|j: int| i <= j < n implies path_less(path@, #[trigger] v@[j]@) by {
            if j > i {
                lemma_path_less_transitive(path@, v@[i as int]@, v@[j]@);
            }
        }
    }
    let ghost before = v@;
    v.insert(i, path);
    proof {
        assert forall|a: int, b: int| 0 <= a < b < v@.len() implies path_less(
            #[trigger] v@[a]@,
            #[trigger] v@[b]@,
        ) by {
            if b < i {
                assert(v@[a] == before[a]);
                assert(v@[b] == before[b]);
            } else if a < i && b == i {
            } else if a < i && b > i {
                assert(v@[b] == before[b - 1]);
            } else if a == i {
                assert(v@[b] == before[b - 1]);
            } else {
                assert(v@[a] == before[a - 1]);
                assert(v@[b] == before[b - 1]);
            }
        }
        assert forall|x: Seq<char>| path_set(v@).contains(x) <==> path_set(before).insert(
            path@,
        ).contains(x) by {
            if path_set(before).contains(x) && x != path@ {
                let k = choose|k: int| 0 <= k < before.len() && before[k]@ == x;
                if k < i {
                    assert(v@[k] == before[k]);
                } else {
                    assert(v@[k + 1] == before[k]);
                }
            }
            if path_set(v@).contains(x) {
                let k = choose|k: int| 0 <= k < v@.len() && v@[k]@ == x;
                if k < i {
                    assert(before[k] == v@[k]);
                } else if k > i {
                    assert(before[k - 1] == v@[k]);
                }
            }
            if x == path@ {
                assert(v@[i as int]@ == x);
            }
        }
        assert(path_set(v@) =~= path_set(before).insert(path@));
    }
}

/// How a walked path compares with the index.
#[derive(Clone, Copy, Debug, PartialEq, Eq, Structural)]
pub enum Outcome {
    /// The index holds no record for the path.
    Untracked,
    /// The path is as it was indexed.
    Unchanged,
    /// The path's content differs from what was indexed.
    Changed,
}

/// The first look at a walked path, before any content is read.
#[derive(Clone, Copy, Debug, PartialEq, Eq, Structural)]
pub enum Probe {
    /// The index holds no record for the path.
    Untracked,
    /// The modification time is as indexed: the path is clean.
    Unchanged,
    /// The modification time moved: the content must be hashed again.
    Rehash,
}

pub open spec fn opt_record_view(r: Option<RepoFile>) -> Option<RepoFileView> {
    match r {
        Some(f) => Some(f@),
        None => None,
    }
}

/// How a path whose live record is `live` compares with its stored record.
/// A moved modification time alone never makes a change: only a digest or a
/// kind (directory, symlink, file) that differs does.
pub open spec fn status_outcome(stored: Option<RepoFileView>, live: RepoFileView) -> Outcome {
    match stored {
        None => Outcome::Untracked,
        Some(s) => if s.modified == live.modified {
            Outcome::Unchanged
        } else if s.hash == live.hash && s.is_dir == live.is_dir && s.is_symlink == live.is_symlink {
            Outcome::Unchanged
        } else {
            Outcome::Changed
        },
    }
}

/// How status sorts a path, comparing the record indexed from metadata
/// `meta0` and content `c0` with the path's live metadata `meta1` and
/// content `c1`: a path without a record is untracked; a path as it was
/// indexed is unchanged; a file touched with the same content, of the same
/// kind, is unchanged; a file whose modification time moved and whose digest
/// differs is changed, and so is a path whose modification time moved and
/// whose kind changed.
pub proof fn lemma_status_classification(meta0: FileMeta, c0: Seq<u8>, meta1: FileMeta, c1: Seq<u8>)
    ensures
        status_outcome(None, record_of(meta1, c1)) == Outcome::Untracked,
        status_outcome(Some(record_of(meta0, c0)), record_of(meta0, c0)) == Outcome::Unchanged,
        c0 == c1 && meta0.is_dir == meta1.is_dir && meta0.is_symlink == meta1.is_symlink
            ==> status_outcome(Some(record_of(meta0, c0)), record_of(meta1, c1))
            == Outcome::Unchanged,
        needs_digest(meta0.is_dir, meta0.is_symlink) && needs_digest(meta1.is_dir, meta1.is_symlink)
            && meta0.modified != meta1.modified && sha256_hex_of(c0) != sha256_hex_of(c1)
            ==> status_outcome(Some(record_of(meta0, c0)), record_of(meta1, c1))
            == Outcome::Changed,
        meta0.modified != meta1.modified && (meta0.is_dir != meta1.is_dir || meta0.is_symlink
            != meta1.is_symlink) ==> status_outcome(Some(record_of(meta0, c0)), record_of(meta1, c1))
            == Outcome::Changed,
{
}

/// The first look at a path: compares the stored record with the live
/// modification time, which is read only for a tracked path. Where it
/// answers `Untracked` or `Unchanged`, that is the outcome whatever the
/// content; `Rehash` asks for the live record.
pub fn probe(stored: &Option<RepoFile>, live_modified: Option<Timestamp>) -> (r: Probe)
    requires
        stored is Some ==> live_modified is Some,
    ensures
        stored is None <==> r == Probe::Untracked,
        r == Probe::Unchanged <==> (stored is Some && live_modified == Some(stored->0.modified)),
        forall|live: RepoFileView|
            stored is None || live_modified == Some(live.modified) ==> {
                &&& r == Probe::Untracked ==> #[trigger] status_outcome(
                    opt_record_view(*stored),
                    live,
                ) == Outcome::Untracked
                &&& r == Probe::Unchanged ==> status_outcome(opt_record_view(*stored), live)
                    == Outcome::Unchanged
            },
{
    match stored {
        None => Probe::Untracked,
        Some(s) => match live_modified {
            Some(t) => if s.modified == t {
                Probe::Unchanged
            } else {
                Probe::Rehash
            },
            None => Probe::Rehash,
        },
    }
}

fn same_digest(a: &Option<String>, b: &Option<String>) -> (r: bool)
    ensures
        r == (opt_str_view(*a) == opt_str_view(*b)),
{
    match a {
        None => b.is_none(),
        Some(x) => match b {
            Some(y) => x.eq(y),
            None => false,
        },
    }
}

/// How a path compares with the index, given its stored record and its live
/// record.
pub fn classify(stored: &Option<RepoFile>, live: &RepoFile) -> (r: Outcome)
    ensures
        r == status_outcome(opt_record_view(*stored), live@),
{
    match stored {
        None => Outcome::Untracked,
        Some(s) => if s.modified == live.modified {
            Outcome::Unchanged
        } else if same_digest(&s.hash, &live.hash) && s.is_dir == live.is_dir && s.is_symlink
            == live.is_symlink {
            Outcome::Unchanged
        } else {
            Outcome::Changed
        },
    }
}

/// The report of one status run.
#[derive(Clone, Debug)]
pub struct RepoStatus {
    /// How many records the index holds, over the whole repository.
    pub paths_count: usize,
    /// Paths on disk without a record, ascending.
    pub untracked_paths: Vec<String>,
    /// Tracked paths whose content changed, ascending.
    pub changed_paths: Vec<String>,
}

impl RepoStatus {
    /// The report as text: the tracked count, then the untracked and the
    /// changed paths, each block only where it has paths.
    pub fn render(&self) -> (r: String)
        ensures
            r@ == rendering(
                self.paths_count as nat,
                self.untracked_paths@.map_values(|p: String| p@),
                self.changed_paths@.map_values(|p: String| p@),
            ),
    {
        proof {
            reveal_strlit("Paths Tracked: ");
            reveal_strlit("\nUntracked Paths:\n");
            reveal_strlit("\nChanged Paths:\n");
        }
        let mut r = String::from_str("Paths Tracked: ");
        let count = decimal_string(self.paths_count);
        r.append(count.as_str());
        if self.untracked_paths.len() > 0 {
            r.append("\nUntracked Paths:\n");
            append_lines(&mut r, &self.untracked_paths);
        }
        if self.changed_paths.len() > 0 {
            r.append("\nChanged Paths:\n");
            append_lines(&mut r, &self.changed_paths);
        }
        assert(r@ =~= rendering(
            self.paths_count as nat,
            self.untracked_paths@.map_values(|p: String| p@),
            self.changed_paths@.map_values(|p: String| p@),
        ));
        r
    }

    pub open spec fn wf(&self) -> bool {
        ascending(self.untracked_paths@) && ascending(self.changed_paths@)
    }

    /// An empty report.
    pub fn new() -> (r: RepoStatus)
        ensures
            r.wf(),
            r.paths_count == 0,
            r.untracked_paths@.len() == 0,
            r.changed_paths@.len() == 0,
    {
        RepoStatus { paths_count: 0, untracked_paths: Vec::new(), changed_paths: Vec::new() }
    }

    /// Files `path` under `outcome`: untracked and changed paths join their
    /// sets, unchanged ones are left out.
    pub fn note(&mut self, path: String, outcome: Outcome)
        requires
            old(self).wf(),
        ensures
            final(self).wf(),
            final(self).paths_count == old(self).paths_count,
            path_set(final(self).untracked_paths@) == if outcome == Outcome::Untracked {
                path_set(old(self).untracked_paths@).insert(path@)
            } else {
                path_set(old(self).untracked_paths@)
            },
            path_set(final(self).changed_paths@) == if outcome == Outcome::Changed {
                path_set(old(self).changed_paths@).insert(path@)
            } else {
                path_set(old(self).changed_paths@)
            },
    {
        match outcome {
            Outcome::Untracked => insert_sorted(&mut self.untracked_paths, path),
            Outcome::Changed => insert_sorted(&mut self.changed_paths, path),
            Outcome::Unchanged => {},
        }
    }
}

/// The character of decimal digit `d`.
pub open spec fn digit_char(d: nat) -> char {
    if d == 0 {
        '0'
    } else if d == 1 {
        '1'
    } else if d == 2 {
        '2'
    } else if d == 3 {
        '3'
    } else if d == 4 {
        '4'
    } else if d == 5 {
        '5'
    } else if d == 6 {
        '6'
    } else if d == 7 {
        '7'
    } else if d == 8 {
        '8'
    } else {
        '9'
    }
}

/// `n` written in decimal, without leading zeros.
pub open spec fn decimal(n: nat) -> Seq<char>
    decreases n,
{
    if n < 10 {
        seq![digit_char(n)]
    } else {
        decimal(n / 10) + seq![digit_char(n % 10)]
    }
}

/// The `Debug` text of path `s`: the path in quotes, special characters
/// escaped.
pub uninterp spec fn path_debug_of(s: Seq<char>) -> Seq<char>;

/// Relies on `Debug` for `std::path::Path`, whose text depends on the path
/// alone.
#[verifier::external_body]
fn path_debug(s: &str) -> (r: String)
    ensures
        r@ == path_debug_of(s@),
{
    format!("{:?}", std::path::Path::new(s))
}

/// One line for each path, each led by a tab, each path in its `Debug` form.
pub open spec fn path_lines(v: Seq<Seq<char>>) -> Seq<char>
    decreases v.len(),
{
    if v.len() == 0 {
        Seq::empty()
    } else {
        path_lines(v.drop_last()) + seq!['\t'] + path_debug_of(v.last()) + seq!['\n']
    }
}

/// The text of a report.
pub open spec fn rendering(count: nat, untracked: Seq<Seq<char>>, changed: Seq<Seq<char>>) -> Seq<
    char,
> {
    "Paths Tracked: "@ + decimal(count) + (if untracked.len() > 0 {
        "\nUntracked Paths:\n"@ + path_lines(untracked)
    } else {
        Seq::empty()
    }) + (if changed.len() > 0 {
        "\nChanged Paths:\n"@ + path_lines(changed)
    } else {
        Seq::empty()
    })
}

fn digit_str(d: usize) -> (r: &'static str)
    requires
        d < 10,
    ensures
        r@ == seq![digit_char(d as nat)],
{
    let digits = "0123456789";
    proof {
        reveal_strlit("0123456789");
    }
    let r = digits.substring_char(d, d + 1);
    assert(r@ =~= seq![digit_char(d as nat)]);
    r
}

fn decimal_string(n: usize) -> (r: String)
    ensures
        r@ == decimal(n as nat),
    decreases n,
{
    if n < 10 {
        digit_str(n).to_owned()
    } else {
        let mut r = decimal_string(n / 10);
        r.append(digit_str(n % 10));
        r
    }
}

fn append_lines(r: &mut String, paths: &Vec<String>)
    ensures
        final(r)@ == old(r)@ + path_lines(paths@.map_values(|p: String| p@)),
{
    let mut i: usize = 0;
    while i < paths.len()
        invariant
            i <= paths@.len(),
            r@ == old(r)@ + path_lines(paths@.subrange(0, i as int).map_values(|p: String| p@)),
        decreases paths@.len() - i,
    {
        proof {
            reveal_strlit("\t");
            reveal_strlit("\n");
        }
        r.append("\t");
        let shown = path_debug(paths[i].as_str());
        r.append(shown.as_str());
        r.append("\n");
        let ghost done = paths@.subrange(0, i + 1).map_values(|p: String| p@);
        assert(done.drop_last() =~= paths@.subrange(0, i as int).map_values(|p: String| p@));
        i = i + 1;
        assert(r@ =~= old(r)@ + path_lines(paths@.subrange(0, i as int).map_values(|p: String| p@)));
    }
    assert(paths@.subrange(0, i as int) =~= paths@);
}

} // verus!
