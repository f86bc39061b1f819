use std::sync::Arc;

use semver::Version;
use wnfs::hamt::{Hamt, HamtSerializable};

#[test]
fn new_trie_has_the_default_root() {
    let hamt = Hamt::<Vec<u8>>::new();
    assert!(hamt.root.is_empty());
    assert_eq!(hamt.version, Version::new(0, 1, 0));
    assert!(hamt == Hamt::default());
}

#[test]
fn stored_trie_comes_back() {
    let hamt = Hamt::with_root(Arc::new(vec![1u8, 2]));
    let stored = hamt.to_serializable("root");
    assert_eq!(stored.root, "root");
    assert_eq!(stored.structure, "hamt");
    assert_eq!(stored.version, Version::new(0, 1, 0));
    let loaded = Hamt::from_serializable(HamtSerializable {
        root: Ok::<Vec<u8>, ()>(vec![1, 2]),
        version: stored.version,
        structure: stored.structure,
    });
    assert!(loaded.ok().unwrap() == hamt);
}

#[test]
fn trie_whose_root_cannot_be_read_is_an_error() {
    let loaded = Hamt::from_serializable(HamtSerializable {
        root: Err::<Vec<u8>, &str>("broken"),
        version: Version::new(1, 0, 0),
        structure: "hamt".to_string(),
    });
    assert_eq!(loaded.err(), Some("broken"));
}

#[test]
fn tries_are_equal_in_root_and_version() {
    let left = Hamt::with_root(Arc::new(1u8));
    let mut right = left.clone();
    assert!(left == right);
    right.version = Version::parse("0.1.0-rc.1").unwrap();
    assert!(left != right);
    assert!(left != Hamt::with_root(Arc::new(2u8)));
}
