//! The index's storage format: how a tracked path becomes a key and a record
//! becomes a value in the embedded key-value store, how both are read back,
//! and what the store then answers for a path.
//!
//! The stored form is bincode's: a string is its UTF-8 byte length in eight
//! little-endian bytes, then the bytes. A record is a tag byte (`0`: no
//! digest, `1`: a digest string follows), then `is_dir` and `is_symlink` as
//! one byte each, then `len` and the modification seconds (two's complement)
//! as eight little-endian bytes each, then the modification nanoseconds and
//! the permission bits as four each. Reading back accepts exactly these
//! forms, with no bytes left over.
use crate::paths::{lemma_path_less_total, lemma_path_less_transitive, path_less, path_precedes};
use crate::repofile::{opt_str_view, RepoFile, RepoFileView, Timestamp};
use vstd::bytes::*;
use vstd::prelude::*;
use vstd::utf8::*;

verus! {

broadcast use {encode_utf8_valid_utf8, encode_utf8_decode_utf8};

/// Errors of the index.
#[derive(Clone, Copy, Debug, PartialEq, Eq, Structural)]
pub enum IndexError {
    /// No record is stored under the path.
    NotFound,
    /// A path or a record could not be written in the index's format.
    SerializationError,
    /// A stored key or value is not in the index's format.
    DeserializationError,
    /// The store could not be opened.
    StoreUnavailable,
    /// The store failed while reading.
    StoreReadError,
    /// The store failed while writing.
    StoreWriteError,
}

/// A string whose UTF-8 length can be written in eight bytes, as that of any
/// string held in memory can.
pub open spec fn str_fits(s: Seq<char>) -> bool {
    encode_utf8(s).len() <= u64::MAX
}

/// Every string of the record fits.
pub open spec fn record_fits(r: RepoFileView) -> bool {
    r.hash is Some ==> str_fits(r.hash->0)
}

pub open spec fn bool_byte(b: bool) -> u8 {
    if b {
        1
    } else {
        0
    }
}

/// A string as stored: its UTF-8 length, then its UTF-8 bytes.
pub open spec fn str_bytes(s: Seq<char>) -> Seq<u8> {
    spec_u64_to_le_bytes(encode_utf8(s).len() as u64) + encode_utf8(s)
}

/// The key under which the record of `path` is stored.
pub open spec fn key_bytes(path: Seq<char>) -> Seq<u8> {
    str_bytes(path)
}

/// The fixed-size part of a stored record, after its digest.
pub open spec fn fixed_bytes(r: RepoFileView) -> Seq<u8> {
    seq![bool_byte(r.is_dir), bool_byte(r.is_symlink)] + spec_u64_to_le_bytes(r.len)
        + spec_u64_to_le_bytes(r.modified.secs as u64) + spec_u32_to_le_bytes(r.modified.nanos)
        + spec_u32_to_le_bytes(r.permissions)
}

/// The stored value of record `r`.
pub open spec fn record_bytes(r: RepoFileView) -> Seq<u8> {
    match r.hash {
        None => seq![0u8] + fixed_bytes(r),
        Some(h) => seq![1u8] + str_bytes(h) + fixed_bytes(r),
    }
}

/// A string read from the front of `b`, with the number of bytes it took.
pub open spec fn parse_str(b: Seq<u8>) -> Option<(Seq<char>, int)> {
    if b.len() < 8 {
        None
    } else {
        let n = spec_u64_from_le_bytes(b.subrange(0, 8)) as int;
        if n <= b.len() - 8 && valid_utf8(b.subrange(8, 8 + n)) {
            Some((decode_utf8(b.subrange(8, 8 + n)), 8 + n))
        } else {
            None
        }
    }
}

/// The path that a stored key names, if it is one.
pub open spec fn parse_key(b: Seq<u8>) -> Option<Seq<char>> {
    match parse_str(b) {
        Some((s, used)) => if used == b.len() {
            Some(s)
        } else {
            None
        },
        None => None,
    }
}

/// The record whose fixed-size part starts `t` and whose digest is `hash`.
pub open spec fn parse_fixed(t: Seq<u8>, hash: Option<Seq<char>>) -> Option<RepoFileView> {
    if t.len() >= 26 && t[0] <= 1 && t[1] <= 1 {
        Some(
            RepoFileView {
                hash,
                is_dir: t[0] == 1,
                is_symlink: t[1] == 1,
                len: spec_u64_from_le_bytes(t.subrange(2, 10)),
                modified: Timestamp {
                    secs: spec_u64_from_le_bytes(t.subrange(10, 18)) as i64,
                    nanos: spec_u32_from_le_bytes(t.subrange(18, 22)),
                },
                permissions: spec_u32_from_le_bytes(t.subrange(22, 26)),
            },
        )
    } else {
        None
    }
}

/// The record that the front of `b` holds, if it holds one.
pub open spec fn parse_record_prefix(b: Seq<u8>) -> Option<RepoFileView> {
    if b.len() == 0 {
        None
    } else if b[0] == 0 {
        parse_fixed(b.subrange(1, b.len() as int), None)
    } else if b[0] == 1 {
        let rest = b.subrange(1, b.len() as int);
        match parse_str(rest) {
            Some((h, used)) => parse_fixed(rest.subrange(used, rest.len() as int), Some(h)),
            None => None,
        }
    } else {
        None
    }
}

/// The record that a stored value holds, if it is exactly one.
pub open spec fn parse_record(b: Seq<u8>) -> Option<RepoFileView> {
    match parse_record_prefix(b) {
        Some(v) => if record_bytes(v).len() == b.len() {
            Some(v)
        } else {
            None
        },
        None => None,
    }
}

/// Relies on `bincode::serialize` (default configuration): a `str` is written
/// as its UTF-8 byte length in eight little-endian bytes, then its bytes.
#[verifier::external_body]
fn serialize_str(s: &str) -> (r: Option<Vec<u8>>)
    ensures
        r is Some ==> r->0@ == str_bytes(s@),
{
    bincode::serialize(s).ok()
}

/// Relies on `bincode::serialize` (default configuration): a tuple is written
/// field after field, an `Option` as a tag byte (`0` or `1`) and then its
/// value, a `bool` as one byte, integers as fixed-width little-endian, a
/// string as `serialize_str` writes it.
#[verifier::external_body]
fn serialize_record(file: &RepoFile) -> (r: Option<Vec<u8>>)
    ensures
        r is Some ==> r->0@ == record_bytes(file@),
{
    bincode::serialize(
        &(
            &file.hash,
            file.is_dir,
            file.is_symlink,
            file.len,
            file.modified.secs,
            file.modified.nanos,
            file.permissions,
        ),
    ).ok()
}

/// Relies on `bincode::deserialize` into a `String`: it reads an eight-byte
/// little-endian length and that many bytes, fails unless they are there and
/// are UTF-8, and ignores any later bytes.
#[verifier::external_body]
fn deserialize_str(b: &[u8]) -> (r: Option<String>)
    ensures
        match parse_str(b@) {
            Some((s, _)) => r is Some && r->0@ == s,
            None => r is None,
        },
{
    bincode::deserialize::<String>(b).ok()
}

/// Relies on `bincode::deserialize` into the record's fields as a tuple, each
/// read as `serialize_record` writes it: missing bytes, a tag or `bool` byte
/// other than `0` or `1`, or a digest that is not UTF-8 fail; later bytes
/// are ignored.
#[verifier::external_body]
fn deserialize_record(b: &[u8]) -> (r: Option<RepoFile>)
    ensures
        match parse_record_prefix(b@) {
            Some(v) => r is Some && r->0@ == v,
            None => r is None,
        },
{
    match bincode::deserialize::<(Option<String>, bool, bool, u64, i64, u32, u32)>(b) {
        Ok((hash, is_dir, is_symlink, len, secs, nanos, permissions)) => Some(
            RepoFile { hash, is_dir, is_symlink, len, modified: Timestamp { secs, nanos }, permissions },
        ),
        Err(_) => None,
    }
}

proof fn lemma_str_round_trip(s: Seq<char>, tail: Seq<u8>)
    requires
        str_fits(s),
    ensures
        parse_str(str_bytes(s) + tail) == Some((s, str_bytes(s).len() as int)),
        str_bytes(s).len() == 8 + encode_utf8(s).len(),
        (str_bytes(s) + tail).subrange(str_bytes(s).len() as int, (str_bytes(s) + tail).len() as int)
            == tail,
{
    lemma_auto_spec_u64_to_from_le_bytes();
    let e = encode_utf8(s);
    let b = str_bytes(s) + tail;
    let n = e.len() as int;
    assert(b.subrange(0, 8) =~= spec_u64_to_le_bytes(n as u64));
    assert(b.subrange(8, 8 + n) =~= e);
    assert(b.subrange(8 + n, b.len() as int) =~= tail);
}

proof fn lemma_fixed_round_trip(r: RepoFileView)
    ensures
        fixed_bytes(r).len() == 26,
        parse_fixed(fixed_bytes(r), r.hash) == Some(r),
{
    lemma_auto_spec_u64_to_from_le_bytes();
    lemma_auto_spec_u32_to_from_le_bytes();
    let t = fixed_bytes(r);
    assert(t.subrange(2, 10) =~= spec_u64_to_le_bytes(r.len));
    assert(t.subrange(10, 18) =~= spec_u64_to_le_bytes(r.modified.secs as u64));
    let secs = r.modified.secs;
    assert(((secs as u64) as i64) == secs) by (bit_vector);
    assert(t.subrange(18, 22) =~= spec_u32_to_le_bytes(r.modified.nanos));
    assert(t.subrange(22, 26) =~= spec_u32_to_le_bytes(r.permissions));
}

/// A stored value reads back as the record that was written.
pub proof fn lemma_record_round_trip(r: RepoFileView)
    requires
        record_fits(r),
    ensures
        parse_record(record_bytes(r)) == Some(r),
{
    lemma_fixed_round_trip(r);
    assert(parse_record_prefix(record_bytes(r)) == Some(r)) by {
        lemma_record_prefix_round_trip(r);
    }
}

proof fn lemma_record_prefix_round_trip(r: RepoFileView)
    requires
        record_fits(r),
    ensures
        parse_record_prefix(record_bytes(r)) == Some(r),
{
    lemma_fixed_round_trip(r);
    let b = record_bytes(r);
    match r.hash {
        None => {
            assert(b.subrange(1, b.len() as int) =~= fixed_bytes(r));
        },
        Some(h) => {
            let rest = b.subrange(1, b.len() as int);
            assert(rest =~= str_bytes(h) + fixed_bytes(r));
            lemma_str_round_trip(h, fixed_bytes(r));
        },
    }
}

/// A stored key reads back as the path it was made from.
pub proof fn lemma_key_round_trip(p: Seq<char>)
    requires
        str_fits(p),
    ensures
        parse_key(key_bytes(p)) == Some(p),
{
    lemma_str_round_trip(p, Seq::empty());
    assert(key_bytes(p) + Seq::<u8>::empty() =~= key_bytes(p));
}

/// Distinct paths have distinct keys.
pub proof fn lemma_key_injective(p: Seq<char>, q: Seq<char>)
    requires
        str_fits(p),
        str_fits(q),
        key_bytes(p) == key_bytes(q),
    ensures
        p == q,
{
    lemma_key_round_trip(p);
    lemma_key_round_trip(q);
}

/// A string read from the front of `b` takes its eight length bytes and
/// its UTF-8 bytes.
proof fn lemma_str_prefix_len(b: Seq<u8>)
    requires
        parse_str(b) is Some,
    ensures
        ({
            let (s, used) = parse_str(b)->0;
            encode_utf8(s).len() + 8 == used && used <= b.len()
        }),
{
    let n = spec_u64_from_le_bytes(b.subrange(0, 8)) as int;
    decode_utf8_encode_utf8(b.subrange(8, 8 + n));
}

/// How long the stored form of `v` is.
proof fn lemma_record_len(v: RepoFileView)
    ensures
        record_bytes(v).len() == match v.hash {
            None => 27,
            Some(h) => 35 + encode_utf8(h).len(),
        },
{
    lemma_auto_spec_u64_to_from_le_bytes();
    lemma_auto_spec_u32_to_from_le_bytes();
}

/// The digest read from the front of `b` is no longer than `b` allows.
proof fn lemma_prefix_hash_len(b: Seq<u8>)
    requires
        parse_record_prefix(b) is Some,
        parse_record_prefix(b)->0.hash is Some,
    ensures
        35 + encode_utf8(parse_record_prefix(b)->0.hash->0).len() <= b.len(),
{
    let rest = b.subrange(1, b.len() as int);
    lemma_str_prefix_len(rest);
}

/// The key under which the record of `path` is stored; fails with
/// `SerializationError` where the path cannot be written.
pub fn record_key(path: &str) -> (r: Result<Vec<u8>, IndexError>)
    ensures
        match r {
            Ok(k) => k@ == key_bytes(path@),
            Err(e) => e == IndexError::SerializationError,
        },
{
    match serialize_str(path) {
        Some(k) => Ok(k),
        None => Err(IndexError::SerializationError),
    }
}

/// The stored value of `file`; fails with `SerializationError` where it
/// cannot be written.
pub fn encode_record(file: &RepoFile) -> (r: Result<Vec<u8>, IndexError>)
    ensures
        match r {
            Ok(b) => b@ == record_bytes(file@),
            Err(e) => e == IndexError::SerializationError,
        },
{
    match serialize_record(file) {
        Some(b) => Ok(b),
        None => Err(IndexError::SerializationError),
    }
}

/// The path that a stored key names, or `None` for bytes in another format.
pub fn decode_key(b: &[u8]) -> (r: Option<String>)
    ensures
        opt_str_view(r) == parse_key(b@),
{
    match deserialize_str(b) {
        None => None,
        Some(s) => {
            proof {
                lemma_str_prefix_len(b@);
            }
            if b.len() >= 8 && s.as_str().len() == b.len() - 8 {
                Some(s)
            } else {
                None
            }
        },
    }
}

/// The record that a stored value holds, or `None` for bytes in another
/// format or with bytes left over.
pub fn decode_record(b: &[u8]) -> (r: Option<RepoFile>)
    ensures
        match parse_record(b@) {
            Some(v) => r is Some && r->0@ == v,
            None => r is None,
        },
{
    match deserialize_record(b) {
        None => None,
        Some(file) => {
            proof {
                lemma_record_len(file@);
            }
            let n = b.len();
            let exact = match &file.hash {
                None => n == 27,
                Some(h) => {
                    proof {
                        lemma_prefix_hash_len(b@);
                    }
                    n >= 35 && h.as_str().len() == n - 35
                },
            };
            if exact {
                Some(file)
            } else {
                None
            }
        },
    }
}

/// The store's contents after writing record `r` under path `p`.
pub open spec fn index_set(m: Map<Seq<u8>, Seq<u8>>, p: Seq<char>, r: RepoFileView) -> Map<
    Seq<u8>,
    Seq<u8>,
> {
    m.insert(key_bytes(p), record_bytes(r))
}

/// Whether the store holds a record for path `p`.
pub open spec fn index_contains(m: Map<Seq<u8>, Seq<u8>>, p: Seq<char>) -> bool {
    m.contains_key(key_bytes(p))
}

/// The record that the store holds for path `p`, if it holds a readable one.
pub open spec fn index_get(m: Map<Seq<u8>, Seq<u8>>, p: Seq<char>) -> Option<RepoFileView> {
    if index_contains(m, p) {
        parse_record(m[key_bytes(p)])
    } else {
        None
    }
}

/// The store's contents after adding `r` under `p`: a path that is tracked
/// already keeps its record.
pub open spec fn index_add(m: Map<Seq<u8>, Seq<u8>>, p: Seq<char>, r: RepoFileView) -> Map<
    Seq<u8>,
    Seq<u8>,
> {
    if index_contains(m, p) {
        m
    } else {
        index_set(m, p, r)
    }
}

/// Writing `r` under `p` and reading `p` gives `r` back; `p` is then
/// contained, and every other path reads as it did before.
pub proof fn lemma_set_then_get(m: Map<Seq<u8>, Seq<u8>>, p: Seq<char>, r: RepoFileView)
    requires
        str_fits(p),
        record_fits(r),
    ensures
        index_contains(index_set(m, p, r), p),
        index_get(index_set(m, p, r), p) == Some(r),
        forall|q: Seq<char>|
            str_fits(q) && q != p ==> {
                &&& index_contains(index_set(m, p, r), q) == index_contains(m, q)
                &&& #[trigger] index_get(index_set(m, p, r), q) == index_get(m, q)
            },
{
    lemma_record_round_trip(r);
    assert forall|q: Seq<char>| str_fits(q) && q != p implies {
        &&& index_contains(index_set(m, p, r), q) == index_contains(m, q)
        &&& #[trigger] index_get(index_set(m, p, r), q) == index_get(m, q)
    } by {
        if key_bytes(q) == key_bytes(p) {
            lemma_key_injective(p, q);
        }
    }
}

/// A store with no records contains no path.
pub proof fn lemma_empty_contains_nothing(p: Seq<char>)
    ensures
        !index_contains(Map::empty(), p),
        index_get(Map::empty(), p) is None,
{
}

/// Adding a path twice leaves the one record of the first add: the second
/// add finds the path tracked and changes nothing.
pub proof fn lemma_add_idempotent(
    m: Map<Seq<u8>, Seq<u8>>,
    p: Seq<char>,
    first: RepoFileView,
    second: RepoFileView,
)
    requires
        str_fits(p),
        record_fits(first),
    ensures
        index_contains(index_add(m, p, first), p),
        index_add(index_add(m, p, first), p, second) == index_add(m, p, first),
        !index_contains(m, p) ==> index_get(index_add(index_add(m, p, first), p, second), p)
            == Some(first),
        !index_contains(m, p) ==> index_add(m, p, first).dom() == m.dom().insert(key_bytes(p)),
{
    lemma_set_then_get(m, p, first);
}

/// What one add of a path does to the store.
#[derive(Clone, Debug, PartialEq, Eq)]
pub enum AddStep {
    /// The path is tracked already: nothing is written, a warning is due.
    AlreadyTracked,
    /// Write `value` under `key`.
    Write { key: Vec<u8>, value: Vec<u8> },
}

/// The store's contents after `step`.
pub open spec fn apply_step(m: Map<Seq<u8>, Seq<u8>>, step: AddStep) -> Map<Seq<u8>, Seq<u8>> {
    match step {
        AddStep::AlreadyTracked => m,
        AddStep::Write { key, value } => m.insert(key@, value@),
    }
}

/// Decides one add of `path`, given whether the store holds it already. The
/// record is needed (and read) only for a path that is not tracked yet;
/// a tracked path keeps its record. Fails only where the path or the record
/// cannot be written.
pub fn add_step(path: &str, contained: bool, record: Option<&RepoFile>) -> (r: Result<
    AddStep,
    IndexError,
>)
    requires
        !contained ==> record is Some,
    ensures
        contained ==> r == Ok::<AddStep, IndexError>(AddStep::AlreadyTracked),
        r is Err ==> !contained && r == Err::<AddStep, IndexError>(IndexError::SerializationError),
        r is Ok ==> (contained <==> r->Ok_0 == AddStep::AlreadyTracked),
        r is Ok ==> forall|m: Map<Seq<u8>, Seq<u8>>|
            index_contains(m, path@) == contained ==> #[trigger] apply_step(m, r->Ok_0)
                == index_add(m, path@, record->0@),
{
    if contained {
        Ok(AddStep::AlreadyTracked)
    } else {
        match record {
            Some(file) => {
                let key = record_key(path)?;
                let value = encode_record(file)?;
                Ok(AddStep::Write { key, value })
            },
            None => Ok(AddStep::AlreadyTracked),
        }
    }
}

/// Whether a path counts as tracked, given what reading its key gave. Any
/// failure, of writing the key or of reading the store, counts as not
/// tracked, so that the path is hashed again rather than skipped.
pub fn tracked_from_read(read: &Result<Option<Vec<u8>>, IndexError>) -> (r: bool)
    ensures
        r == (read is Ok && read->Ok_0 is Some),
{
    match read {
        Ok(Some(_)) => true,
        _ => false,
    }
}

/// What a lookup answers, given what the store returned for the path's key:
/// `NotFound` when nothing is stored, `DeserializationError` for a value in
/// another format.
pub fn lookup(stored: Option<Vec<u8>>) -> (r: Result<RepoFile, IndexError>)
    ensures
        match stored {
            None => r == Err::<RepoFile, IndexError>(IndexError::NotFound),
            Some(b) => match parse_record(b@) {
                Some(v) => r is Ok && r->Ok_0@ == v,
                None => r == Err::<RepoFile, IndexError>(IndexError::DeserializationError),
            },
        },
{
    match stored {
        None => Err(IndexError::NotFound),
        Some(b) => match decode_record(b.as_slice()) {
            Some(file) => Ok(file),
            None => Err(IndexError::DeserializationError),
        },
    }
}

/// Whether every stored pair is a key and a record of the index's format.
pub open spec fn entries_readable(raw: Seq<(Vec<u8>, Vec<u8>)>) -> bool {
    forall|i: int|
        0 <= i < raw.len() ==> parse_key((#[trigger] raw[i]).0@) is Some && parse_record(
            raw[i].1@,
        ) is Some
}

/// A readable key is exactly the stored form of the path it names.
proof fn lemma_parse_key_exact(b: Seq<u8>)
    requires
        parse_key(b) is Some,
    ensures
        b == key_bytes(parse_key(b)->0),
{
    lemma_auto_spec_u64_to_from_le_bytes();
    let head = b.subrange(0, 8);
    let n = spec_u64_from_le_bytes(head) as int;
    let body = b.subrange(8, 8 + n);
    decode_utf8_encode_utf8(body);
    let s = decode_utf8(body);
    assert(encode_utf8(s) == body);
    assert(spec_u64_to_le_bytes(spec_u64_from_le_bytes(head)) == head);
    assert(b =~= head + body);
}

/// Whether the stored keys are pairwise distinct, as those of a store are.
pub open spec fn distinct_keys(raw: Seq<(Vec<u8>, Vec<u8>)>) -> bool {
    forall|i: int, j: int|
        0 <= i < raw.len() && 0 <= j < raw.len() && i != j ==> (#[trigger] raw[i]).0@ != (
        #[trigger] raw[j]).0@
}

/// Whether the entry `e` is the reading of the stored pair `kv`.
pub open spec fn reads_as(e: (String, RepoFile), kv: (Vec<u8>, Vec<u8>)) -> bool {
    Some(e.0@) == parse_key(kv.0@) && Some(e.1@) == parse_record(kv.1@)
}

/// Entries in strictly ascending path order.
pub open spec fn entries_ascending(v: Seq<(String, RepoFile)>) -> bool {
    forall|i: int, j: int| 0 <= i < j < v.len() ==> path_less(#[trigger] v[i].0@, #[trigger] v[j].0@)
}

/// Every one of the first `n` stored pairs is read as some entry of `out`.
pub open spec fn all_found(out: Seq<(String, RepoFile)>, raw: Seq<(Vec<u8>, Vec<u8>)>, n: int) -> bool {
    forall|k: int|
        0 <= k < n ==> exists|j: int| 0 <= j < out.len() && reads_as(#[trigger] out[j], #[trigger] raw[k])
}

/// Every entry of `out` is the reading of one of the first `n` stored pairs.
pub open spec fn all_sourced(out: Seq<(String, RepoFile)>, raw: Seq<(Vec<u8>, Vec<u8>)>, n: int) -> bool {
    forall|j: int|
        0 <= j < out.len() ==> exists|k: int| 0 <= k < n && reads_as(#[trigger] out[j], #[trigger] raw[k])
}

fn insert_entry(out: &mut Vec<(String, RepoFile)>, path: String, file: RepoFile) -> (pos: usize)
    requires
        entries_ascending(old(out)@),
        forall|j: int| 0 <= j < old(out)@.len() ==> (#[trigger] old(out)@[j]).0@ != path@,
    ensures
        pos <= old(out)@.len(),
        final(out)@ == old(out)@.insert(pos as int, (path, file)),
        entries_ascending(final(out)@),
{
    let n = out.len();
    let mut i: usize = 0;
    while i < n && path_precedes(out[i].0.as_str(), path.as_str())
        invariant
            i <= n,
            n == out@.len(),
            out@ == old(out)@,
            entries_ascending(out@),
            forall|j: int| 0 <= j < i ==> path_less(#[trigger] out@[j].0@, path@),
        decreases n - i,
    {
        i = i + 1;
    }
    proof {
        if i < n {
            lemma_path_less_total(out@[i as int].0@, path@);
        }
        assert forall|j: int| i <= j < n implies path_less(path@, #[trigger] out@[j].0@) by {
            if j > i {
                lemma_path_less_transitive(path@, out@[i as int].0@, out@[j].0@);
            }
        }
    }
    let ghost before = out@;
    out.insert(i, (path, file));
    proof {
        assert forall|a: int, b: int| 0 <= a < b < out@.len() implies path_less(
            #[trigger] out@[a].0@,
            #[trigger] out@[b].0@,
        ) by {
            if b < i {
                assert(out@[a] == before[a]);
                assert(out@[b] == before[b]);
            } else if a < i && b == i {
            } else if a < i && b > i {
                assert(out@[a] == before[a]);
                assert(out@[b] == before[b - 1]);
            } else if a == i {
                assert(out@[b] == before[b - 1]);
            } else {
                assert(out@[a] == before[a - 1]);
                assert(out@[b] == before[b - 1]);
            }
        }
    }
    i
}

proof fn lemma_new_path(out: Seq<(String, RepoFile)>, raw: Seq<(Vec<u8>, Vec<u8>)>, i: int, p: Seq<char>)
    requires
        0 <= i < raw.len(),
        distinct_keys(raw),
        parse_key(raw[i].0@) == Some(p),
        all_sourced(out, raw, i),
    ensures
        forall|j: int| 0 <= j < out.len() ==> (#[trigger] out[j]).0@ != p,
{
    assert forall|j: int| 0 <= j < out.len() implies (#[trigger] out[j]).0@ != p by {
        let m = choose|m: int| 0 <= m < i && reads_as(out[j], #[trigger] raw[m]);
        if out[j].0@ == p {
            lemma_parse_key_exact(raw[m].0@);
            lemma_parse_key_exact(raw[i].0@);
            assert(raw[m].0@ == raw[i].0@);
        }
    }
}

proof fn lemma_insert_found(
    before: Seq<(String, RepoFile)>,
    after: Seq<(String, RepoFile)>,
    pos: int,
    raw: Seq<(Vec<u8>, Vec<u8>)>,
    i: int,
)
    requires
        0 <= i < raw.len(),
        0 <= pos <= before.len(),
        after == before.insert(pos, after[pos]),
        reads_as(after[pos], raw[i]),
        all_found(before, raw, i),
    ensures
        all_found(after, raw, i + 1),
{
    assert forall|m: int| 0 <= m < i + 1 implies exists|j: int|
        0 <= j < after.len() && reads_as(#[trigger] after[j], #[trigger] raw[m]) by {
        if m == i {
            assert(reads_as(after[pos], raw[m]));
        } else {
            let j0 = choose|j0: int| 0 <= j0 < before.len() && reads_as(#[trigger] before[j0], raw[m]);
            if j0 < pos {
                assert(after[j0] == before[j0]);
                assert(reads_as(after[j0], raw[m]));
            } else {
                assert(after[j0 + 1] == before[j0]);
                assert(reads_as(after[j0 + 1], raw[m]));
            }
        }
    }
}

proof fn lemma_insert_sourced(
    before: Seq<(String, RepoFile)>,
    after: Seq<(String, RepoFile)>,
    pos: int,
    raw: Seq<(Vec<u8>, Vec<u8>)>,
    i: int,
)
    requires
        0 <= i < raw.len(),
        0 <= pos <= before.len(),
        after == before.insert(pos, after[pos]),
        reads_as(after[pos], raw[i]),
        all_sourced(before, raw, i),
    ensures
        all_sourced(after, raw, i + 1),
{
    assert forall|j: int| 0 <= j < after.len() implies exists|m: int|
        0 <= m < i + 1 && reads_as(#[trigger] after[j], #[trigger] raw[m]) by {
        if j == pos {
            assert(reads_as(after[j], raw[i]));
        } else {
            let jb = if j < pos {
                j
            } else {
                j - 1
            };
            assert(after[j] == before[jb]);
            let m0 = choose|m0: int| 0 <= m0 < i && reads_as(before[jb], #[trigger] raw[m0]);
            assert(reads_as(after[j], raw[m0]));
        }
    }
}

/// Reads every stored pair back into a path and its record, in ascending
/// path order; fails with `DeserializationError` if any pair is not
/// readable.
pub fn decode_entries(raw: &Vec<(Vec<u8>, Vec<u8>)>) -> (r: Result<Vec<(String, RepoFile)>, IndexError>)
    requires
        distinct_keys(raw@),
    ensures
        r is Ok <==> entries_readable(raw@),
        r is Err ==> r == Err::<Vec<(String, RepoFile)>, IndexError>(
            IndexError::DeserializationError,
        ),
        r is Ok ==> {
            let out = r->Ok_0@;
            &&& out.len() == raw@.len()
            &&& entries_ascending(out)
            &&& all_found(out, raw@, raw@.len() as int)
            &&& all_sourced(out, raw@, raw@.len() as int)
        },
{
    let mut out: Vec<(String, RepoFile)> = Vec::new();
    let mut i: usize = 0;
    while i < raw.len()
        invariant
            i <= raw@.len(),
            distinct_keys(raw@),
            out@.len() == i,
            entries_ascending(out@),
            forall|k: int|
                0 <= k < i ==> parse_key((#[trigger] raw@[k]).0@) is Some && parse_record(
                    raw@[k].1@,
                ) is Some,
            all_found(out@, raw@, i as int),
            all_sourced(out@, raw@, i as int),
        decreases raw@.len() - i,
    {
        let key = decode_key(raw[i].0.as_slice());
        let record = decode_record(raw[i].1.as_slice());
        let ghost kv = raw@[i as int];
        if key.is_none() || record.is_none() {
            assert(!(parse_key(kv.0@) is Some && parse_record(kv.1@) is Some));
            return Err(IndexError::DeserializationError);
        }
        let k = key.unwrap();
        let v = record.unwrap();
        let ghost e = (k, v);
        assert(reads_as(e, kv));
        proof {
            lemma_new_path(out@, raw@, i as int, k@);
        }
        let ghost before = out@;
        let pos = insert_entry(&mut out, k, v);
        proof {
            assert(out@[pos as int] == e);
            lemma_insert_found(before, out@, pos as int, raw@, i as int);
            lemma_insert_sourced(before, out@, pos as int, raw@, i as int);
        }
        i = i + 1;
    }
    assert(entries_readable(raw@));
    Ok(out)
}

} // verus!
