use syncust::chunker::Chunker;

fn drain(mut c: Chunker) -> Vec<String> {
    let mut out = Vec::new();
    while let Some(piece) = c.next() {
        out.push(piece);
    }
    out
}

#[test]
fn chunks_even_length() {
    assert_eq!(drain(Chunker::new("abcdef", 2)), vec!["ab", "cd", "ef"]);
}

#[test]
fn chunks_drop_trailing_remainder() {
    assert_eq!(drain(Chunker::new("abcde", 2)), vec!["ab", "cd"]);
}

#[test]
fn chunks_count_is_floor_of_length_over_size() {
    let s = "0123456789abcdefghij";
    for k in 1..=25usize {
        let pieces = drain(Chunker::new(s, k));
        assert_eq!(pieces.len(), s.len() / k);
        assert!(pieces.iter().all(|p| p.chars().count() == k));
        assert_eq!(pieces.concat(), s[..k * (s.len() / k)].to_string());
    }
}

#[test]
fn chunks_exhausted_stays_empty() {
    let mut c = Chunker::new("abcd", 2);
    assert_eq!(c.next(), Some("ab".to_string()));
    assert_eq!(c.next(), Some("cd".to_string()));
    assert_eq!(c.next(), None);
    assert_eq!(c.next(), None);
}

#[test]
fn chunks_of_empty_string_and_zero_size() {
    assert!(drain(Chunker::new("", 3)).is_empty());
    assert!(drain(Chunker::new("abc", 0)).is_empty());
    assert!(drain(Chunker::new("ab", 3)).is_empty());
}

#[test]
fn chunks_count_characters_not_bytes() {
    assert_eq!(drain(Chunker::new("äöüß", 2)), vec!["äö", "üß"]);
}
