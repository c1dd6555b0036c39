use std::collections::BTreeMap;
use syncust::index::{
    add_step, decode_entries, decode_key, decode_record, encode_record, lookup, record_key,
    tracked_from_read, AddStep, IndexError,
};
use syncust::repofile::{RepoFile, Timestamp};

fn record(hash: Option<&str>, is_dir: bool) -> RepoFile {
    RepoFile {
        hash: hash.map(|h| h.to_string()),
        is_dir,
        is_symlink: false,
        len: 0x0102,
        modified: Timestamp { secs: 7, nanos: 9 },
        permissions: 0o755,
    }
}

/// An in-memory stand-in for the key-value store, fed through the index format.
struct MemIndex(BTreeMap<Vec<u8>, Vec<u8>>);

impl MemIndex {
    fn set(&mut self, path: &str, r: &RepoFile) {
        self.0.insert(record_key(path).unwrap(), encode_record(r).unwrap());
    }
    fn get(&self, path: &str) -> Result<RepoFile, IndexError> {
        lookup(self.0.get(&record_key(path).unwrap()).cloned())
    }
    fn contains(&self, path: &str) -> bool {
        self.0.contains_key(&record_key(path).unwrap())
    }
}

#[test]
fn key_layout_is_length_then_utf8() {
    assert_eq!(record_key("ab").unwrap(), vec![2, 0, 0, 0, 0, 0, 0, 0, b'a', b'b']);
    assert_eq!(record_key("").unwrap(), vec![0; 8]);
    assert_eq!(record_key("é").unwrap(), vec![2, 0, 0, 0, 0, 0, 0, 0, 0xc3, 0xa9]);
}

#[test]
fn record_layout_without_digest() {
    let bytes = encode_record(&record(None, true)).unwrap();
    let mut expected = vec![0u8, 1, 0];
    expected.extend_from_slice(&0x0102u64.to_le_bytes());
    expected.extend_from_slice(&7u64.to_le_bytes());
    expected.extend_from_slice(&9u32.to_le_bytes());
    expected.extend_from_slice(&0o755u32.to_le_bytes());
    assert_eq!(bytes, expected);
}

#[test]
fn record_layout_with_digest() {
    let bytes = encode_record(&record(Some("ff"), false)).unwrap();
    assert_eq!(&bytes[..11], &[1u8, 2, 0, 0, 0, 0, 0, 0, 0, b'f', b'f']);
    assert_eq!(bytes.len(), 11 + 26);
}

#[test]
fn records_round_trip() {
    for r in [record(None, true), record(Some("abc"), false), record(Some(""), false)] {
        assert_eq!(decode_record(&encode_record(&r).unwrap()), Some(r));
    }
}

#[test]
fn keys_round_trip() {
    for p in ["", "a", "dir/file.txt", "ünï/cödé"] {
        assert_eq!(decode_key(&record_key(p).unwrap()), Some(p.to_string()));
    }
}

#[test]
fn malformed_bytes_are_refused() {
    assert_eq!(decode_record(&[]), None);
    assert_eq!(decode_record(&[2]), None);
    let mut bytes = encode_record(&record(None, false)).unwrap();
    bytes.push(0);
    assert_eq!(decode_record(&bytes), None);
    let mut bytes = encode_record(&record(None, false)).unwrap();
    bytes[1] = 2;
    assert_eq!(decode_record(&bytes), None);
    assert_eq!(decode_key(&[1, 0, 0, 0, 0, 0, 0, 0]), None);
    assert_eq!(decode_key(&[1, 0, 0, 0, 0, 0, 0, 0, 0xff]), None);
    assert_eq!(decode_key(&[0, 0, 0, 0, 0, 0, 0, 0, b'x']), None);
}

#[test]
fn lookup_errors() {
    assert_eq!(lookup(None), Err(IndexError::NotFound));
    assert_eq!(lookup(Some(vec![9, 9])), Err(IndexError::DeserializationError));
    let r = record(Some("abc"), false);
    assert_eq!(lookup(Some(encode_record(&r).unwrap())), Ok(r));
}

#[test]
fn set_then_get_returns_record() {
    let mut index = MemIndex(BTreeMap::new());
    let r = record(Some("abc"), false);
    assert!(!index.contains("a/b"));
    assert_eq!(index.get("a/b"), Err(IndexError::NotFound));
    index.set("a/b", &r);
    assert!(index.contains("a/b"));
    assert_eq!(index.get("a/b"), Ok(r.clone()));
    assert!(!index.contains("a"));
    let r2 = record(None, true);
    index.set("a", &r2);
    assert_eq!(index.get("a/b"), Ok(r));
    assert_eq!(index.get("a"), Ok(r2));
}

#[test]
fn adding_twice_keeps_one_record() {
    let mut index = MemIndex(BTreeMap::new());
    let first = record(Some("abc"), false);
    let second = record(Some("def"), false);
    for r in [&first, &second] {
        if !index.contains("f.txt") {
            index.set("f.txt", r);
        }
    }
    assert_eq!(index.0.len(), 1);
    assert_eq!(index.get("f.txt"), Ok(first));
}

#[test]
fn entries_decode_in_order() {
    let a = record(Some("abc"), false);
    let b = record(None, true);
    let raw = vec![
        (record_key("a").unwrap(), encode_record(&a).unwrap()),
        (record_key("b").unwrap(), encode_record(&b).unwrap()),
    ];
    let out = decode_entries(&raw).unwrap();
    assert_eq!(out, vec![("a".to_string(), a.clone()), ("b".to_string(), b.clone())]);
    let raw = vec![
        (record_key("b").unwrap(), encode_record(&b).unwrap()),
        (record_key("aa").unwrap(), encode_record(&a).unwrap()),
        (record_key("a.txt").unwrap(), encode_record(&b).unwrap()),
        (record_key("a/z").unwrap(), encode_record(&a).unwrap()),
    ];
    let paths: Vec<String> = decode_entries(&raw).unwrap().into_iter().map(|(p, _)| p).collect();
    assert_eq!(paths, vec!["a/z", "a.txt", "aa", "b"]);
    let bad = vec![(record_key("a").unwrap(), vec![7u8])];
    assert_eq!(decode_entries(&bad), Err(IndexError::DeserializationError));
    assert_eq!(decode_entries(&Vec::new()), Ok(Vec::new()));
}

#[test]
fn add_step_writes_only_untracked_paths() {
    let r = record(Some("abc"), false);
    assert_eq!(add_step("p", true, None), Ok(AddStep::AlreadyTracked));
    assert_eq!(add_step("p", true, Some(&r)), Ok(AddStep::AlreadyTracked));
    assert_eq!(
        add_step("p", false, Some(&r)),
        Ok(AddStep::Write { key: record_key("p").unwrap(), value: encode_record(&r).unwrap() })
    );
}

#[test]
fn times_before_the_epoch_round_trip() {
    let mut r = record(None, false);
    r.modified = Timestamp { secs: -86_400, nanos: 5 };
    let bytes = encode_record(&r).unwrap();
    assert_eq!(&bytes[11..19], &(-86_400i64).to_le_bytes());
    assert_eq!(decode_record(&bytes), Some(r));
}

#[test]
fn trailing_bytes_are_refused() {
    let mut key = record_key("ab").unwrap();
    key.push(0);
    assert_eq!(decode_key(&key), None);
    let mut value = encode_record(&record(Some("abc"), false)).unwrap();
    value.push(0);
    assert_eq!(decode_record(&value), None);
    assert_eq!(lookup(Some(value)), Err(IndexError::DeserializationError));
}

#[test]
fn read_failures_count_as_untracked() {
    assert!(tracked_from_read(&Ok(Some(vec![1]))));
    assert!(!tracked_from_read(&Ok(None)));
    assert!(!tracked_from_read(&Err(IndexError::StoreReadError)));
    assert!(!tracked_from_read(&Err(IndexError::SerializationError)));
}
