use std::cell::Cell;
use std::rc::Rc;

use chrono::Utc;
use sha3::{Digest, Sha3_256};
use skip_ratchet::Ratchet;
use wnfs::common::{HashOutput, Rng, HASH_BYTE_SIZE};
use wnfs::error::FsError;
use wnfs::private::directory::PrivateDirectory;
use wnfs::private::forest::PrivateForest;
use wnfs::private::metadata::{Metadata, UnixFsNodeKind};
use wnfs::private::namefilter::Namefilter;
use wnfs::private::node::{PrivateFile, PrivateNode, REVISION_KEY_DOMAIN};
use wnfs::private::operations::PrivateOpResult;
use wnfs::private::path::PathNodesResult;
use wnfs::private::reference::{
    EncryptedRatchetKey, Key, Locator, PrivateRef, RatchetKey,
};

struct TestRng(Cell<u64>);

impl TestRng {
    fn new() -> TestRng {
        TestRng(Cell::new(7))
    }
}

impl Rng for TestRng {
    fn random_bytes<const N: usize>(&self) -> [u8; N] {
        let mut bytes = [0u8; N];
        for byte in bytes.iter_mut() {
            let next = self
                .0
                .get()
                .wrapping_mul(6364136223846793005)
                .wrapping_add(1442695040888963407);
            self.0.set(next);
            *byte = (next >> 33) as u8;
        }
        bytes
    }
}

fn now() -> i64 {
    Utc::now().timestamp()
}

fn new_root(rng: &TestRng) -> Rc<PrivateDirectory> {
    Rc::new(PrivateDirectory::new(
        Namefilter::default(),
        rng.random_bytes::<HASH_BYTE_SIZE>(),
        rng.random_bytes::<HASH_BYTE_SIZE>(),
        now(),
    ))
}

#[test]
fn look_up_can_fetch_file_added_to_directory() {
    let rng = &TestRng::new();
    let root_dir = new_root(rng);
    let hamt = Rc::new(PrivateForest::new());

    let content = b"Hello, World!".to_vec();

    let PrivateOpResult { root_dir, hamt, .. } = root_dir
        .write(&["text.txt".into()], now(), content.clone(), hamt, rng)
        .unwrap();

    let PrivateOpResult { result, .. } = root_dir.read(&["text.txt".into()], hamt).unwrap();

    assert_eq!(result, content);
}

#[test]
fn look_up_cannot_fetch_file_not_added_to_directory() {
    let rng = &TestRng::new();
    let root_dir = new_root(rng);
    let hamt = Rc::new(PrivateForest::new());

    let node = root_dir.lookup_node("Unknown", &hamt).unwrap();

    assert!(node.is_none());
}

#[test]
fn mkdir_can_create_new_directory() {
    let rng = &TestRng::new();
    let root_dir = new_root(rng);
    let hamt = Rc::new(PrivateForest::new());

    let PrivateOpResult { root_dir, hamt, .. } = root_dir
        .mkdir(&["tamedun".into(), "pictures".into()], now(), hamt, rng)
        .unwrap();

    let PrivateOpResult { result, .. } = root_dir
        .get_node(&["tamedun".into(), "pictures".into()], hamt)
        .unwrap();

    assert!(result.is_some());
}

#[test]
fn ls_can_list_children_under_directory() {
    let rng = &TestRng::new();
    let root_dir = new_root(rng);
    let hamt = Rc::new(PrivateForest::new());

    let PrivateOpResult { root_dir, hamt, .. } = root_dir
        .mkdir(&["tamedun".into(), "pictures".into()], now(), hamt, rng)
        .unwrap();

    let PrivateOpResult { root_dir, hamt, .. } = root_dir
        .write(
            &["tamedun".into(), "pictures".into(), "puppy.jpg".into()],
            now(),
            b"puppy".to_vec(),
            hamt,
            rng,
        )
        .unwrap();

    let PrivateOpResult { root_dir, hamt, .. } = root_dir
        .mkdir(
            &["tamedun".into(), "pictures".into(), "cats".into()],
            now(),
            hamt,
            rng,
        )
        .unwrap();

    let PrivateOpResult { result, .. } = root_dir
        .ls(&["tamedun".into(), "pictures".into()], hamt)
        .unwrap();

    assert_eq!(result.len(), 2);
    assert_eq!(result[0].0, String::from("cats"));
    assert_eq!(result[1].0, String::from("puppy.jpg"));
    assert_eq!(result[0].1.unix_fs.kind, UnixFsNodeKind::Dir);
    assert_eq!(result[1].1.unix_fs.kind, UnixFsNodeKind::File);
}

#[test]
fn rm_can_remove_children_from_directory() {
    let rng = &TestRng::new();
    let root_dir = new_root(rng);
    let hamt = Rc::new(PrivateForest::new());

    let PrivateOpResult { root_dir, hamt, .. } = root_dir
        .mkdir(&["tamedun".into(), "pictures".into()], now(), hamt, rng)
        .unwrap();

    let PrivateOpResult { root_dir, hamt, .. } = root_dir
        .write(
            &["tamedun".into(), "pictures".into(), "puppy.jpg".into()],
            now(),
            b"puppy".to_vec(),
            hamt,
            rng,
        )
        .unwrap();

    let PrivateOpResult { root_dir, hamt, .. } = root_dir
        .mkdir(
            &["tamedun".into(), "pictures".into(), "cats".into()],
            now(),
            hamt,
            rng,
        )
        .unwrap();

    let PrivateOpResult { root_dir, hamt, .. } = root_dir
        .rm(&["tamedun".into(), "pictures".into()], hamt)
        .unwrap();

    let result = root_dir.rm(&["tamedun".into(), "pictures".into()], hamt);

    assert!(result.is_err());
}

#[test]
fn read_can_fetch_userland_of_file_added_to_directory() {
    let rng = &TestRng::new();
    let root_dir = new_root(rng);
    let hamt = Rc::new(PrivateForest::new());

    let PrivateOpResult { root_dir, hamt, .. } = root_dir
        .write(&["text.txt".into()], now(), b"text".to_vec(), hamt, rng)
        .unwrap();

    let PrivateOpResult { result, .. } = root_dir.read(&["text.txt".into()], hamt).unwrap();

    assert_eq!(result, b"text".to_vec());
}

#[test]
fn path_nodes_can_generates_new_path_nodes() {
    let hamt = Rc::new(PrivateForest::new());
    let rng = &TestRng::new();

    let path_nodes = PrivateDirectory::create_path_nodes(
        &["Documents".into(), "Apps".into()],
        now(),
        Namefilter::default(),
        rng,
    );

    let (root_dir, hamt) = PrivateDirectory::fix_up_path_nodes(path_nodes.clone(), hamt);

    let result = root_dir
        .get_path_nodes(&["Documents".into(), "Apps".into()], &hamt)
        .unwrap();

    match result {
        PathNodesResult::MissingLink(_, segment) => panic!("MissingLink {segment}"),
        PathNodesResult::NotADirectory(_, segment) => panic!("NotADirectory {segment}"),
        PathNodesResult::Complete(path_nodes_2) => {
            assert_eq!(path_nodes.path.len(), path_nodes_2.path.len());
            assert_eq!(path_nodes.path[0].1, path_nodes_2.path[0].1);
            assert_eq!(path_nodes.path[1].1, path_nodes_2.path[1].1);
        }
    }
}

fn path(segments: &[&str]) -> Vec<String> {
    segments.iter().map(|segment| segment.to_string()).collect()
}

/// A tree with `a/b.txt`, `a/c/d.txt` and `e`.
fn sample(rng: &TestRng) -> (Rc<PrivateDirectory>, Rc<PrivateForest>) {
    let root_dir = new_root(rng);
    let hamt = Rc::new(PrivateForest::new());
    let PrivateOpResult { root_dir, hamt, .. } = root_dir
        .write(&path(&["a", "b.txt"]), 1, b"b".to_vec(), hamt, rng)
        .unwrap();
    let PrivateOpResult { root_dir, hamt, .. } = root_dir
        .write(&path(&["a", "c", "d.txt"]), 2, b"d".to_vec(), hamt, rng)
        .unwrap();
    let PrivateOpResult { root_dir, hamt, .. } =
        root_dir.mkdir(&path(&["e"]), 3, hamt, rng).unwrap();
    (root_dir, hamt)
}

fn read(
    root_dir: &Rc<PrivateDirectory>,
    hamt: &Rc<PrivateForest>,
    at: &[&str],
) -> Result<Vec<u8>, FsError> {
    Rc::clone(root_dir)
        .read(&path(at), Rc::clone(hamt))
        .map(|outcome| outcome.result)
}

#[test]
fn read_says_why_there_is_nothing_to_read() {
    let (root_dir, hamt) = sample(&TestRng::new());
    assert_eq!(read(&root_dir, &hamt, &[]), Err(FsError::InvalidPath));
    assert_eq!(read(&root_dir, &hamt, &["a"]), Err(FsError::NotAFile));
    assert_eq!(read(&root_dir, &hamt, &["x"]), Err(FsError::NotFound));
    assert_eq!(read(&root_dir, &hamt, &["x", "y"]), Err(FsError::NotFound));
    assert_eq!(
        read(&root_dir, &hamt, &["a", "b.txt", "y"]),
        Err(FsError::NotFound)
    );
    assert_eq!(read(&root_dir, &hamt, &["a", "c", "d.txt"]), Ok(b"d".to_vec()));
}

#[test]
fn get_node_of_the_empty_path_is_the_directory_itself() {
    let (root_dir, hamt) = sample(&TestRng::new());
    let outcome = Rc::clone(&root_dir).get_node(&[], Rc::clone(&hamt)).unwrap();
    match outcome.result {
        Some(PrivateNode::Dir(dir)) => assert!(Rc::ptr_eq(&dir, &root_dir)),
        _ => panic!("not the directory"),
    }
    let missing = Rc::clone(&root_dir)
        .get_node(&path(&["a", "x"]), Rc::clone(&hamt))
        .unwrap();
    assert!(missing.result.is_none());
    assert_eq!(
        root_dir.get_node(&path(&["x", "y"]), hamt).err(),
        Some(FsError::NotFound)
    );
}

#[test]
fn write_says_why_nothing_is_written() {
    let rng = &TestRng::new();
    let (root_dir, hamt) = sample(rng);
    let write = |at: &[&str]| {
        Rc::clone(&root_dir)
            .write(&path(at), 4, Vec::new(), Rc::clone(&hamt), rng)
            .err()
    };
    assert_eq!(write(&[]), Some(FsError::InvalidPath));
    assert_eq!(write(&["a"]), Some(FsError::DirectoryAlreadyExists));
    assert_eq!(write(&["a", "b.txt", "x"]), Some(FsError::InvalidPath));
    assert_eq!(
        Rc::clone(&root_dir)
            .mkdir(&path(&["a", "b.txt"]), 4, Rc::clone(&hamt), rng)
            .err(),
        Some(FsError::InvalidPath)
    );
}

#[test]
fn file_that_is_written_again_keeps_its_header() {
    let rng = &TestRng::new();
    let (root_dir, hamt) = sample(rng);
    let before = match root_dir.clone().get_node(&path(&["a", "b.txt"]), hamt.clone()) {
        Ok(PrivateOpResult { result: Some(PrivateNode::File(file)), .. }) => file,
        _ => panic!("no file"),
    };
    let PrivateOpResult { root_dir, hamt, .. } = root_dir
        .write(&path(&["a", "b.txt"]), 9, b"other".to_vec(), hamt, rng)
        .unwrap();
    let after = match root_dir.clone().get_node(&path(&["a", "b.txt"]), hamt.clone()) {
        Ok(PrivateOpResult { result: Some(PrivateNode::File(file)), .. }) => file,
        _ => panic!("no file"),
    };
    assert_eq!(after.header.inumber, before.header.inumber);
    assert_eq!(after.header.ratchet, before.header.ratchet);
    assert_eq!(after.content.content, b"other".to_vec());
    assert_eq!(
        after.content.metadata,
        Metadata::new(9, UnixFsNodeKind::File)
    );
    assert!(after.content.metadata.is_file());
}

#[test]
fn change_leaves_the_other_nodes_as_they_are() {
    let rng = &TestRng::new();
    let (root_dir, hamt) = sample(rng);
    let PrivateOpResult { root_dir, hamt, .. } = root_dir
        .write(&path(&["a", "c", "new"]), 5, b"n".to_vec(), hamt, rng)
        .unwrap();
    let PrivateOpResult { root_dir, hamt, result } =
        root_dir.rm(&path(&["e"]), hamt).unwrap();
    assert!(matches!(result, PrivateNode::Dir(_)));
    let PrivateOpResult { root_dir, hamt, .. } = root_dir
        .mkdir(&path(&["f", "g"]), 5, hamt, rng)
        .unwrap();
    assert_eq!(read(&root_dir, &hamt, &["a", "b.txt"]), Ok(b"b".to_vec()));
    assert_eq!(read(&root_dir, &hamt, &["a", "c", "d.txt"]), Ok(b"d".to_vec()));
    assert_eq!(read(&root_dir, &hamt, &["a", "c", "new"]), Ok(b"n".to_vec()));
    assert_eq!(read(&root_dir, &hamt, &["e"]), Err(FsError::NotFound));
}

#[test]
fn change_moves_the_directories_on_the_path_to_their_next_revision() {
    let rng = &TestRng::new();
    let root_dir = new_root(rng);
    let mut expected = root_dir.header.ratchet.clone();
    expected.inc();
    let PrivateOpResult { root_dir: after, hamt, .. } = Rc::clone(&root_dir)
        .mkdir(&path(&["a"]), 1, Rc::new(PrivateForest::new()), rng)
        .unwrap();
    assert_eq!(after.header.ratchet, expected);
    assert_eq!(after.header.inumber, root_dir.header.inumber);
    // The directory that was made and the root were stored, in that order.
    assert_eq!(hamt.writes().len(), 2);
    assert_eq!(
        hamt.writes()[1].private_ref.saturated_name_hash,
        after.header.get_private_ref().saturated_name_hash
    );
    // Making a directory that is there makes nothing, and moves on all the same.
    expected.inc();
    let PrivateOpResult { root_dir: again, hamt, .. } =
        after.mkdir(&[], 1, hamt, rng).unwrap();
    assert_eq!(again.header.ratchet, expected);
    assert_eq!(hamt.writes().len(), 3);
}

#[test]
fn ls_says_why_there_is_nothing_to_list() {
    let (root_dir, hamt) = sample(&TestRng::new());
    let ls = |at: &[&str]| {
        Rc::clone(&root_dir)
            .ls(&path(at), Rc::clone(&hamt))
            .map(|outcome| outcome.result)
    };
    assert_eq!(ls(&["x"]), Err(FsError::NotFound));
    assert_eq!(ls(&["a", "b.txt"]), Err(FsError::NotFound));
    assert_eq!(ls(&["e"]), Ok(Vec::new()));
    let names: Vec<String> = ls(&["a"]).unwrap().into_iter().map(|item| item.0).collect();
    assert_eq!(names, vec!["b.txt".to_string(), "c".to_string()]);
}

#[test]
fn ls_orders_names_by_their_bytes() {
    let rng = &TestRng::new();
    let mut root_dir = new_root(rng);
    let mut hamt = Rc::new(PrivateForest::new());
    for name in ["b", "\u{10000}", "B", "\u{e9}", "ba", "", "\u{ffff}"] {
        let outcome = root_dir.mkdir(&path(&[name]), 1, hamt, rng).unwrap();
        root_dir = outcome.root_dir;
        hamt = outcome.hamt;
    }
    let listed: Vec<String> = root_dir
        .ls(&[], hamt)
        .unwrap()
        .result
        .into_iter()
        .map(|item| item.0)
        .collect();
    let mut expected = listed.clone();
    expected.sort();
    assert_eq!(listed, expected);
    assert_eq!(listed.len(), 7);
}

#[test]
fn rm_says_why_nothing_is_removed() {
    let (root_dir, hamt) = sample(&TestRng::new());
    let rm = |at: &[&str]| Rc::clone(&root_dir).rm(&path(at), Rc::clone(&hamt)).err();
    assert_eq!(rm(&[]), Some(FsError::InvalidPath));
    assert_eq!(rm(&["x"]), Some(FsError::NotFound));
    assert_eq!(rm(&["x", "y"]), Some(FsError::NotFound));
    assert_eq!(rm(&["a", "b.txt", "y"]), Some(FsError::NotFound));
    assert_eq!(rm(&["a", "c"]), None);
}

#[test]
fn name_that_leads_nowhere_is_found_out() {
    let rng = &TestRng::new();
    let (root_dir, hamt) = sample(rng);
    assert!(!Rc::clone(&root_dir).has_dangling_name(&path(&["a"]), &hamt));
    assert!(!Rc::clone(&root_dir).has_dangling_name(&path(&["x"]), &hamt));
    assert!(!Rc::clone(&root_dir).has_dangling_name(&[], &hamt));
    // In a forest that holds nothing, every name of the root leads nowhere.
    let empty = Rc::new(PrivateForest::new());
    assert!(Rc::clone(&root_dir).has_dangling_name(&path(&["a"]), &empty));
    assert_eq!(
        root_dir.ls(&[], empty).map(|outcome| outcome.result),
        Err(FsError::NotFound)
    );
}

#[test]
fn forest_with_a_store_says_what_to_fetch() {
    let (root_dir, full) = sample(&TestRng::new());
    let mut partial = PrivateForest::with_store();
    let mut fetched = 0;
    let content = loop {
        match Rc::clone(&root_dir).read(&path(&["a", "c", "d.txt"]), Rc::new(partial.clone())) {
            Ok(outcome) => break outcome.result,
            Err(FsError::NotLoaded(place)) => {
                let found = full
                    .get(&PrivateRef {
                        saturated_name_hash: place.saturated_name_hash,
                        content_key: place.content_key,
                        ratchet_key: None,
                    })
                    .unwrap();
                partial.learn(place, found);
                fetched += 1;
            }
            Err(error) => panic!("{error:?}"),
        }
    };
    assert_eq!(content, b"d".to_vec());
    assert_eq!(fetched, 3);
    assert!(partial.writes().is_empty());
}

#[test]
fn place_where_a_store_has_nothing_is_empty() {
    let mut forest = PrivateForest::with_store();
    let place = Locator {
        saturated_name_hash: [1; HASH_BYTE_SIZE],
        content_key: Key([2; HASH_BYTE_SIZE]),
    };
    let private_ref = PrivateRef {
        saturated_name_hash: [1; HASH_BYTE_SIZE],
        content_key: Key([2; HASH_BYTE_SIZE]),
        ratchet_key: None,
    };
    assert_eq!(forest.get(&private_ref).err(), Some(FsError::NotLoaded(place)));
    forest.learn(place, None);
    assert!(forest.get(&private_ref).unwrap().is_none());
}

#[test]
fn two_digests_come_from_one_draw() {
    let mut bytes = [0u8; 64];
    for (i, byte) in bytes.iter_mut().enumerate() {
        *byte = i as u8;
    }
    let (first, second) = PrivateDirectory::split_double(&bytes);
    assert_eq!(first[..], bytes[..32]);
    assert_eq!(second[..], bytes[32..]);

    let one = PrivateDirectory::generate_double_random(&TestRng::new());
    let expected: [u8; 64] = TestRng::new().random_bytes();
    assert_eq!(one, PrivateDirectory::split_double(&expected));
}

#[test]
fn created_directories_are_named_under_one_another() {
    let seeds: Vec<(HashOutput, HashOutput)> = (0u8..3).map(|i| ([i; 32], [i + 10; 32])).collect();
    let nodes = PrivateDirectory::create_path_nodes_from(
        &path(&["x", "y"]),
        6,
        Namefilter::default(),
        &seeds,
    );
    assert_eq!(nodes.path.len(), 2);
    assert_eq!(nodes.path[1].1, "y");
    let name = &nodes.tail.header.bare_name;
    assert_eq!(name.len(), 3);
    for i in 0..3u8 {
        assert_eq!(name.element(i as usize), &[i; 32]);
    }
    assert_eq!(
        nodes.path[1].0.header.ratchet,
        Ratchet::from_seed(&[11; 32], 0, 0)
    );
    assert_eq!(
        nodes.tail.content.metadata,
        Metadata::new(6, UnixFsNodeKind::Dir)
    );
}

#[test]
fn missing_directories_are_made_from_the_seeds() {
    let rng = &TestRng::new();
    let root_dir = new_root(rng);
    let forest = PrivateForest::new();
    let segments = path(&["x", "y"]);
    let found = Rc::clone(&root_dir).get_path_nodes(&segments, &forest).unwrap();
    match &found {
        PathNodesResult::MissingLink(nodes, name) => {
            assert!(nodes.path.is_empty());
            assert_eq!(name, "x");
        }
        _ => panic!("not a missing link"),
    }
    let seeds = vec![([1; 32], [2; 32]), ([3; 32], [4; 32])];
    let nodes = PrivateDirectory::complete_path_nodes(found, &segments, 1, &seeds).ok().unwrap();
    assert_eq!(nodes.path.len(), 2);
    assert_eq!(nodes.path[0].1, "x");
    assert_eq!(nodes.path[1].1, "y");
    assert_eq!(nodes.path[1].0.header.inumber, [1; 32]);
    assert_eq!(nodes.tail.header.inumber, [3; 32]);
}

#[test]
fn reference_is_made_of_the_revision_key() {
    let file = PrivateFile::new(Namefilter::default(), [5; 32], [6; 32], 0, Vec::new());
    let ratchet = Ratchet::from_seed(&[6; 32], 0, 0);
    assert_eq!(file.header.ratchet, ratchet);
    let key: [u8; 32] = ratchet.derive_key(REVISION_KEY_DOMAIN).finalize().into();
    let private_ref = file.header.get_private_ref();
    assert_eq!(
        private_ref.content_key.0[..],
        Sha3_256::digest(key)[..]
    );
    let mut name = vec![5u8; 32];
    name.extend_from_slice(&key);
    assert_eq!(private_ref.saturated_name_hash[..], Sha3_256::digest(name)[..]);
    match &private_ref.ratchet_key {
        Some(ratchet_key) => assert_eq!(ratchet_key.get_bare_key(), Ok(Key(key))),
        None => panic!("no ratchet key"),
    }
}

#[test]
fn ratchet_key_is_bare_or_encrypted() {
    let bare = RatchetKey::Bare(Key([1; 32]));
    assert_eq!(bare.get_bare_key(), Ok(Key([1; 32])));
    assert_eq!(bare.serialize(), Err(FsError::ExpectEncryptedRatchetKey));
    let both = RatchetKey::Encrypted(EncryptedRatchetKey {
        encrypted: vec![9, 8],
        bare: Some(Key([2; 32])),
    });
    assert_eq!(both.get_bare_key(), Ok(Key([2; 32])));
    assert_eq!(both.serialize(), Ok(vec![9, 8]));
    let stored = RatchetKey::deserialize(vec![9, 8]);
    assert_eq!(stored.get_bare_key(), Err(FsError::ExpectBareRatchetKey));
    assert_eq!(stored.serialize(), Ok(vec![9, 8]));
}

#[test]
fn modification_time_changes_alone() {
    let file = PrivateFile::new(Namefilter::default(), [5; 32], [6; 32], 3, b"x".to_vec());
    let node = PrivateNode::from(file);
    match node.update_mtime(8) {
        PrivateNode::File(file) => {
            assert_eq!(file.content.metadata.unix_fs.created, 3);
            assert_eq!(file.content.metadata.unix_fs.modified, 8);
            assert_eq!(file.content.content, b"x".to_vec());
            assert_eq!(file.header.inumber, [5; 32]);
        }
        PrivateNode::Dir(_) => panic!("not a file"),
    }
    let directory = PrivateDirectory::new(Namefilter::default(), [5; 32], [6; 32], 3);
    match PrivateNode::from(directory).update_mtime(8) {
        PrivateNode::Dir(dir) => assert_eq!(dir.content.metadata.unix_fs.modified, 8),
        PrivateNode::File(_) => panic!("not a directory"),
    }
}

#[test]
fn change_through_a_store_sets_the_same_nodes() {
    let (root_dir, full) = sample(&TestRng::new());
    let segments = path(&["a", "c", "new", "file"]);
    let direct = Rc::clone(&root_dir)
        .write(&segments, 4, b"x".to_vec(), Rc::clone(&full), &TestRng::new())
        .unwrap();
    let mut partial = PrivateForest::with_store();
    let fetched = loop {
        match Rc::clone(&root_dir).write(
            &segments,
            4,
            b"x".to_vec(),
            Rc::new(partial.clone()),
            &TestRng::new(),
        ) {
            Ok(outcome) => break outcome,
            Err(FsError::NotLoaded(place)) => {
                let found = full
                    .get(&PrivateRef {
                        saturated_name_hash: place.saturated_name_hash,
                        content_key: place.content_key,
                        ratchet_key: None,
                    })
                    .unwrap();
                partial.learn(place, found);
            }
            Err(error) => panic!("{error:?}"),
        }
    };
    assert_eq!(fetched.root_dir.header.ratchet, direct.root_dir.header.ratchet);
    let set = &direct.hamt.writes()[full.writes().len()..];
    assert_eq!(set.len(), 5);
    assert_eq!(fetched.hamt.writes().len(), set.len());
    for (left, right) in fetched.hamt.writes().iter().zip(set) {
        assert_eq!(
            left.private_ref.saturated_name_hash,
            right.private_ref.saturated_name_hash
        );
        assert_eq!(left.private_ref.content_key, right.private_ref.content_key);
    }
}

#[test]
fn new_nodes_are_made_from_one_draw_each() {
    let rng = TestRng::new();
    let draws: Vec<[u8; 64]> = (0..4).map(|_| rng.random_bytes()).collect();

    let nodes = PrivateDirectory::create_path_nodes(
        &path(&["x", "y"]),
        6,
        Namefilter::default(),
        &TestRng::new(),
    );
    let made = [&nodes.path[0].0, &nodes.path[1].0, &nodes.tail];
    for (directory, draw) in made.iter().zip(&draws) {
        let (inumber, ratchet_seed) = PrivateDirectory::split_double(draw);
        assert_eq!(directory.header.inumber, inumber);
        assert_eq!(directory.header.ratchet, Ratchet::from_seed(&ratchet_seed, 0, 0));
    }

    let root_dir = Rc::new(PrivateDirectory::new(Namefilter::default(), [1; 32], [2; 32], 0));
    let outcome = root_dir
        .write(
            &path(&["x", "y", "z", "file"]),
            6,
            b"f".to_vec(),
            Rc::new(PrivateForest::new()),
            &TestRng::new(),
        )
        .unwrap();
    let found = outcome
        .root_dir
        .get_node(&path(&["x", "y", "z", "file"]), outcome.hamt)
        .unwrap();
    let (inumber, ratchet_seed) = PrivateDirectory::split_double(&draws[3]);
    match found.result {
        Some(PrivateNode::File(file)) => {
            assert_eq!(file.header.inumber, inumber);
            assert_eq!(file.header.ratchet, Ratchet::from_seed(&ratchet_seed, 0, 0));
        }
        _ => panic!("no file"),
    }
}

#[test]
fn outcome_is_compared_and_cloned_by_its_parts() {
    let (root_dir, hamt) = sample(&TestRng::new());
    let (other_dir, other_hamt) = sample(&TestRng::new());
    let outcome = root_dir.read(&path(&["a", "b.txt"]), hamt).unwrap();
    let copy = outcome.clone();
    assert_eq!(copy, outcome);
    assert!(Rc::ptr_eq(&copy.root_dir, &outcome.root_dir));
    assert!(Rc::ptr_eq(&copy.hamt, &outcome.hamt));
    let other = other_dir.read(&path(&["a", "c", "d.txt"]), other_hamt).unwrap();
    assert_ne!(other, outcome);
}

#[test]
fn encrypted_ratchet_key_is_cloned_whole() {
    let key = EncryptedRatchetKey { encrypted: vec![9, 8], bare: Some(Key([2; 32])) };
    assert_eq!(key.clone(), key);
    assert_ne!(key, EncryptedRatchetKey { encrypted: vec![9, 8], bare: None });
}

#[test]
fn change_sets_one_entry_of_each_directory_on_the_path() {
    let rng = &TestRng::new();
    let (before_dir, before_hamt) = sample(rng);
    let outcome = Rc::clone(&before_dir)
        .write(&path(&["a", "c", "new"]), 5, b"n".to_vec(), Rc::clone(&before_hamt), rng)
        .unwrap();
    let directory = |root: &Rc<PrivateDirectory>, hamt: &Rc<PrivateForest>, at: &[&str]| {
        match Rc::clone(root).get_node(&path(at), Rc::clone(hamt)) {
            Ok(PrivateOpResult { result: Some(PrivateNode::Dir(dir)), .. }) => dir,
            _ => panic!("no directory"),
        }
    };
    for (at, name) in [(vec![], "a"), (vec!["a"], "c"), (vec!["a", "c"], "new")] {
        let before = directory(&before_dir, &before_hamt, &at);
        let after = directory(&outcome.root_dir, &outcome.hamt, &at);
        let mut header = before.header.clone();
        header.advance_ratchet();
        assert_eq!(after.header, header);
        assert_eq!(after.content.metadata, before.content.metadata);
        let mut old_entries = before.content.entries.clone();
        let mut new_entries = after.content.entries.clone();
        assert_ne!(old_entries, new_entries);
        old_entries.remove(name);
        new_entries.remove(name);
        assert_eq!(old_entries, new_entries);
    }
}
