use ml_rust::error::ErrorKind;
use ml_rust::vocabulary::Vocabulary;

fn entry(token: &str, index: usize) -> (String, usize) {
    (token.to_string(), index)
}

#[test]
fn new_vocabulary_is_empty() {
    let v = Vocabulary::new();
    assert_eq!(v.len(), 0);
    assert_eq!(v.index_of("free"), None);
    assert!(v.token(0).is_none());
    assert!(v.entries().is_empty());
}

#[test]
fn insert_gives_dense_indices_in_order() {
    let mut v = Vocabulary::new();
    assert_eq!(v.insert("free"), 0);
    assert_eq!(v.insert("money"), 1);
    assert_eq!(v.insert("now"), 2);
    assert_eq!(v.len(), 3);
    assert_eq!(v.token(1).map(|t| t.as_str()), Some("money"));
    assert!(v.token(3).is_none());
}

#[test]
fn insert_of_a_known_token_changes_nothing() {
    let mut v = Vocabulary::new();
    v.insert("free");
    v.insert("money");
    assert_eq!(v.insert("free"), 0);
    assert_eq!(v.insert("money"), 1);
    assert_eq!(v.len(), 2);
}

#[test]
fn index_of_finds_tokens_and_only_them() {
    let mut v = Vocabulary::new();
    v.insert("free");
    v.insert("money");
    assert_eq!(v.index_of("free"), Some(0));
    assert_eq!(v.index_of("money"), Some(1));
    assert_eq!(v.index_of("mone"), None);
    assert_eq!(v.index_of("Free"), None);
    assert_eq!(v.index_of(""), None);
}

#[test]
fn entries_pair_each_token_with_its_index() {
    let mut v = Vocabulary::new();
    v.insert("free");
    v.insert("money");
    assert_eq!(v.entries(), vec![entry("free", 0), entry("money", 1)]);
}

#[test]
fn from_entries_takes_entries_in_any_order() {
    let v = Vocabulary::from_entries(&vec![entry("now", 2), entry("free", 0), entry("money", 1)])
        .unwrap();
    assert_eq!(v.len(), 3);
    assert_eq!(v.index_of("free"), Some(0));
    assert_eq!(v.index_of("money"), Some(1));
    assert_eq!(v.index_of("now"), Some(2));
}

#[test]
fn from_entries_of_nothing_is_the_empty_vocabulary() {
    let v = Vocabulary::from_entries(&Vec::new()).unwrap();
    assert_eq!(v.len(), 0);
}

#[test]
fn from_entries_gives_back_what_entries_gave() {
    let mut v = Vocabulary::new();
    for token in ["free", "money", "now", "call", "me", "later"] {
        v.insert(token);
    }
    let mut listed = v.entries();
    listed.reverse();
    let again = Vocabulary::from_entries(&listed).unwrap();
    assert_eq!(again.entries(), v.entries());
}

#[test]
fn from_entries_refuses_an_index_out_of_range() {
    let r = Vocabulary::from_entries(&vec![entry("free", 0), entry("money", 2)]);
    assert_eq!(r.err(), Some(ErrorKind::ArtifactCorrupt));
}

#[test]
fn from_entries_refuses_an_index_used_twice() {
    let r = Vocabulary::from_entries(&vec![entry("free", 0), entry("money", 0)]);
    assert_eq!(r.err(), Some(ErrorKind::ArtifactCorrupt));
}

#[test]
fn from_entries_refuses_a_token_listed_twice() {
    let r = Vocabulary::from_entries(&vec![entry("free", 0), entry("free", 1)]);
    assert_eq!(r.err(), Some(ErrorKind::ArtifactCorrupt));
}
