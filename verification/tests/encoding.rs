use std::collections::BTreeMap;
use std::rc::Rc;

use libipld::cbor::DagCborCodec;
use libipld::codec::Codec;
use libipld::Ipld;
use wnfs::error::NodeError;
use wnfs::framing::check;
use wnfs::private::directory::{PrivateDirectory, PrivateDirectoryContent};
use wnfs::private::entries::Entries;
use wnfs::private::metadata::{Metadata, UnixFsNodeKind};
use wnfs::private::namefilter::Namefilter;
use wnfs::private::node::{PrivateFile, PrivateFileContent, PrivateNode, PrivateNodeHeader};
use wnfs::private::reference::{EncryptedRatchetKey, Key, PrivateRef, RatchetKey};

type HeldNode = PrivateNode<Option<PrivateNodeHeader>>;

fn header() -> PrivateNodeHeader {
    let mut parent = Namefilter::default();
    parent.add(&[4; 32]);
    let mut header = PrivateNodeHeader::new(Some(parent), [5; 32], [6; 32]);
    header.advance_ratchet();
    header
}

fn file(header: Option<PrivateNodeHeader>) -> HeldNode {
    PrivateNode::from(PrivateFile {
        header,
        content: PrivateFileContent {
            metadata: Metadata::new(-12, UnixFsNodeKind::File),
            content: vec![0, 255, 7],
        },
    })
}

fn private_ref(ratchet_key: Option<RatchetKey>) -> PrivateRef {
    PrivateRef {
        saturated_name_hash: [1; 32],
        content_key: Key([2; 32]),
        ratchet_key,
    }
}

fn directory(ratchet_key: Option<RatchetKey>) -> HeldNode {
    let mut entries = Entries::new();
    entries.insert("zebra".to_string(), private_ref(None));
    entries.insert("ant".to_string(), private_ref(ratchet_key));
    PrivateNode::Dir(Rc::new(PrivateDirectory {
        header: None,
        content: PrivateDirectoryContent {
            metadata: Metadata::new(i64::MAX, UnixFsNodeKind::Dir),
            entries,
        },
    }))
}

fn read_again(node: &HeldNode, with_header: bool) -> Result<HeldNode, NodeError> {
    let (header_bytes, content_bytes) = node.serialize_as_cbor()?;
    let header_bytes = if with_header { Some(header_bytes) } else { None };
    HeldNode::deserialize_from_cbor(&header_bytes, &content_bytes)
}

#[test]
fn stored_file_comes_back() {
    match read_again(&file(Some(header())), true) {
        Ok(PrivateNode::File(file)) => {
            assert_eq!(file.content.content, vec![0, 255, 7]);
            assert_eq!(file.content.metadata, Metadata::new(-12, UnixFsNodeKind::File));
            let read = file.header.as_ref().unwrap();
            assert_eq!(read.ratchet, header().ratchet);
            assert_eq!(read.inumber, [5; 32]);
            assert_eq!(read.bare_name.len(), 2);
            assert_eq!(read.bare_name.element(0), &[4; 32]);
            assert_eq!(read.bare_name.element(1), &[5; 32]);
        }
        _ => panic!("not the file"),
    }
}

#[test]
fn header_that_is_not_given_is_not_known() {
    match read_again(&file(Some(header())), false) {
        Ok(node) => assert!(node.header().is_none()),
        Err(error) => panic!("{error:?}"),
    }
    // What is stored of a header that is not known is no header.
    assert_eq!(
        read_again(&file(None), true).err(),
        Some(NodeError::InvalidHeader)
    );
}

#[test]
fn stored_directory_comes_back_without_bare_keys() {
    let key = RatchetKey::Encrypted(EncryptedRatchetKey {
        encrypted: vec![3, 1, 4],
        bare: Some(Key([9; 32])),
    });
    match read_again(&directory(Some(key)), false) {
        Ok(PrivateNode::Dir(dir)) => {
            let entries = &dir.content.entries;
            assert_eq!(entries.len(), 2);
            assert_eq!(entries.entry(0).name, "ant");
            assert_eq!(entries.entry(1).name, "zebra");
            let ant = entries.get("ant").unwrap();
            assert_eq!(ant.saturated_name_hash, [1; 32]);
            assert_eq!(ant.content_key, Key([2; 32]));
            match &ant.ratchet_key {
                Some(RatchetKey::Encrypted(key)) => {
                    assert_eq!(key.encrypted, vec![3, 1, 4]);
                    assert!(key.bare.is_none());
                }
                _ => panic!("not an encrypted key"),
            }
            assert!(entries.get("zebra").unwrap().ratchet_key.is_none());
        }
        _ => panic!("not the directory"),
    }
}

#[test]
fn bare_ratchet_key_is_not_stored() {
    let node = directory(Some(RatchetKey::Bare(Key([9; 32]))));
    assert_eq!(
        node.serialize_as_cbor().err(),
        Some(NodeError::ExpectEncryptedRatchetKey)
    );
}

#[test]
fn content_is_written_as_a_map() {
    let (_, bytes) = file(None).serialize_as_cbor().unwrap();
    let value: Ipld = DagCborCodec.decode(&bytes).unwrap();
    let mut unix_fs = BTreeMap::new();
    unix_fs.insert("created".to_string(), Ipld::Integer(-12));
    unix_fs.insert("modified".to_string(), Ipld::Integer(-12));
    unix_fs.insert("kind".to_string(), Ipld::String("File".to_string()));
    let mut metadata = BTreeMap::new();
    metadata.insert("unix_fs".to_string(), Ipld::StringMap(unix_fs));
    let mut expected = BTreeMap::new();
    expected.insert("content".to_string(), Ipld::Bytes(vec![0, 255, 7]));
    expected.insert("metadata".to_string(), Ipld::StringMap(metadata));
    assert_eq!(value, Ipld::StringMap(expected));
}

#[test]
fn header_is_written_as_a_map() {
    assert_eq!(file(None).serialize_header(), Ipld::Null);
    match file(Some(header())).serialize_header() {
        Ipld::StringMap(map) => {
            let names: Vec<&String> = map.keys().collect();
            assert_eq!(names, vec!["bare_name", "inumber", "ratchet"]);
            assert_eq!(map["inumber"], Ipld::List(vec![Ipld::Integer(5); 32]));
            match &map["ratchet"] {
                Ipld::StringMap(ratchet) => {
                    assert_eq!(ratchet["smallCounter"], Ipld::Integer(1));
                    assert_eq!(ratchet["mediumCounter"], Ipld::Integer(0));
                }
                other => panic!("{other:?}"),
            }
        }
        other => panic!("{other:?}"),
    }
}

fn map(fields: Vec<(&str, Ipld)>) -> Ipld {
    Ipld::StringMap(
        fields
            .into_iter()
            .map(|(name, value)| (name.to_string(), value))
            .collect(),
    )
}

fn metadata(kind: &str) -> Ipld {
    map(vec![(
        "unix_fs",
        map(vec![
            ("created", Ipld::Integer(1)),
            ("modified", Ipld::Integer(2)),
            ("kind", Ipld::String(kind.to_string())),
        ]),
    )])
}

fn read_content(content: Ipld) -> Result<HeldNode, NodeError> {
    HeldNode::deserialize_content(content, None)
}

#[test]
fn content_has_to_be_a_map() {
    assert_eq!(
        read_content(Ipld::Integer(5)).err(),
        Some(NodeError::InvalidDeserialization(
            "Expected `Ipld::Map` got 5".to_string()
        ))
    );
    assert_eq!(
        read_content(Ipld::List(vec![Ipld::Null, Ipld::Bool(true)])).err(),
        Some(NodeError::InvalidDeserialization(
            "Expected `Ipld::Map` got [null, true]".to_string()
        ))
    );
}

#[test]
fn content_has_to_have_metadata() {
    assert_eq!(
        read_content(map(vec![])).err(),
        Some(NodeError::MissingMetadataField)
    );
    assert_eq!(
        read_content(map(vec![("metadata", Ipld::Null)])).err(),
        Some(NodeError::InvalidMetadata)
    );
    assert_eq!(
        read_content(map(vec![("metadata", metadata("Link"))])).err(),
        Some(NodeError::InvalidMetadata)
    );
    let late = map(vec![(
        "unix_fs",
        map(vec![
            ("created", Ipld::Integer(1)),
            ("modified", Ipld::Integer(1 << 63)),
            ("kind", Ipld::String("File".to_string())),
        ]),
    )]);
    assert_eq!(
        read_content(map(vec![("metadata", late)])).err(),
        Some(NodeError::InvalidMetadata)
    );
}

#[test]
fn content_has_to_be_that_of_its_kind() {
    assert_eq!(
        read_content(map(vec![("metadata", metadata("File"))])).err(),
        Some(NodeError::InvalidContent)
    );
    assert_eq!(
        read_content(map(vec![
            ("metadata", metadata("Dir")),
            ("content", Ipld::Bytes(vec![])),
        ]))
        .err(),
        Some(NodeError::InvalidContent)
    );
    let bad_ref = map(vec![("x", map(vec![("content_key", Ipld::Null)]))]);
    assert_eq!(
        read_content(map(vec![("metadata", metadata("Dir")), ("entries", bad_ref)])).err(),
        Some(NodeError::InvalidContent)
    );
}

#[test]
fn kind_in_the_metadata_decides() {
    let content = map(vec![
        ("metadata", metadata("Dir")),
        ("content", Ipld::Bytes(vec![1])),
        ("entries", map(vec![])),
        ("more", Ipld::Float(0.5)),
    ]);
    assert!(matches!(read_content(content), Ok(PrivateNode::Dir(_))));
    let content = map(vec![
        ("metadata", metadata("File")),
        ("content", Ipld::List(vec![Ipld::Integer(7), Ipld::Integer(255)])),
    ]);
    match read_content(content) {
        Ok(PrivateNode::File(file)) => assert_eq!(file.content.content, vec![7, 255]),
        _ => panic!("not a file"),
    }
}

#[test]
fn bytes_that_announce_too_much_are_refused() {
    let read = |bytes: &[u8]| HeldNode::deserialize_from_cbor(&None, bytes).err();
    assert_eq!(read(&[]), Some(NodeError::InvalidCbor));
    // Bytes, text, a list and a map of all but endless length.
    for first in [0x5b, 0x7b, 0x9b, 0xbb] {
        let mut bytes = vec![first];
        bytes.extend_from_slice(&[0xff; 8]);
        assert_eq!(read(&bytes), Some(NodeError::InvalidCbor));
    }
    assert_eq!(read(&[0x43, 1, 2]), Some(NodeError::InvalidCbor));
    assert_eq!(
        HeldNode::deserialize_from_cbor(&Some(vec![0x82, 0]), &[0xa0]).err(),
        Some(NodeError::InvalidCbor)
    );
    assert_eq!(
        HeldNode::deserialize_from_cbor(&Some(vec![0xa0]), &[0xa0]).err(),
        Some(NodeError::InvalidHeader)
    );
    assert_eq!(read(&[0xa0]), Some(NodeError::MissingMetadataField));
}

#[test]
fn data_items_fit_or_not() {
    assert!(check(&[0x17]));
    assert!(!check(&[0x18]));
    assert!(check(&[0x18, 0x20, 0xff]));
    assert!(check(&[0x3b, 1, 2, 3, 4, 5, 6, 7, 8]));
    assert!(!check(&[0x1c]));
    assert!(check(&[0x42, 1, 2]));
    assert!(check(&[0x83, 1, 0x61, 0x61, 0xf6]));
    assert!(check(&[0xa1, 0x61, 0x61, 0x80]));
    assert!(!check(&[0xa1, 0x61, 0x61]));
    assert!(check(&[0x9f, 1, 2, 0xff]));
    assert!(!check(&[0x9f, 1, 2]));
    assert!(check(&[0xbf, 0x61, 0x61, 1, 0xff]));
    assert!(check(&[0xd8, 42, 0x41, 0]));
    assert!(!check(&[0xd8]));
    assert!(check(&[0xfa, 0, 0, 0, 0]));
    assert!(!check(&[0xfb, 0, 0, 0, 0]));
    assert!(!check(&[0xf9, 0, 0]));
    assert!(!check(&[0xff]));
}

/// As many lists in one another, the innermost of which holds a number.
fn nested(depth: usize) -> Vec<u8> {
    let mut bytes = vec![0x81; depth];
    bytes.push(0);
    bytes
}

#[test]
fn data_items_are_nested_as_deep_as_they_come() {
    for depth in [0, 1, 256, 257, 1000, 1_000_000] {
        assert!(check(&nested(depth)));
        assert!(!check(&nested(depth)[..depth]));
    }
}

#[test]
fn field_that_is_ignored_may_be_nested_deep() {
    let mut deep = Ipld::Null;
    for _ in 0..300 {
        deep = Ipld::List(vec![deep]);
    }
    let content = map(vec![
        ("metadata", metadata("File")),
        ("content", Ipld::Bytes(vec![1, 2])),
        ("more", deep),
    ]);
    let bytes = DagCborCodec.encode(&content).unwrap();
    match HeldNode::deserialize_from_cbor(&None, &bytes) {
        Ok(PrivateNode::File(file)) => {
            assert_eq!(file.content.content, vec![1, 2]);
            assert_eq!(file.content.metadata.unix_fs.created, 1);
            assert_eq!(file.content.metadata.unix_fs.modified, 2);
        }
        other => panic!("{other:?}"),
    }
}
