//! Private nodes as IPLD values, and as the bytes that are stored of them.

use vstd::prelude::*;

use libipld::Ipld;

use crate::common::{HashOutput, HASH_BYTE_SIZE};
use crate::error::{NodeError, NodeErrorView};
use crate::framing::check;
use crate::ipld::{build, decode, describe, encode, shape, IpldView, Parts, Shape};
use crate::private::directory::{
    PrivateDirectory, PrivateDirectoryContent, PrivateDirectoryContentView,
};
use crate::private::entries::Entries;
use crate::private::metadata::{Metadata, UnixFsMetadata, UnixFsNodeKind};
use crate::private::namefilter::Namefilter;
use crate::private::node::{
    PrivateFile, PrivateFileContent, PrivateFileContentView, PrivateNode, PrivateNodeHeader,
    PrivateNodeHeaderView,
};
use crate::private::order::{compare_names, NameOrder};
use crate::private::reference::{
    copy_bytes, Key, PrivateRef, PrivateRefView, RatchetKey, RatchetKeyView,
};
use crate::ratchet::{ratchet_from_ipld, ratchet_to_ipld};

verus! {

/// A field of a list whose names are distinct is found under its name.
proof fn lemma_fields_distinct(pairs: Seq<(Seq<char>, IpldView)>, index: int)
    requires
        crate::ipld::distinct_names(pairs),
        0 <= index < pairs.len(),
    ensures
        crate::ipld::fields_of(pairs).contains_key(pairs[index].0),
        crate::ipld::fields_of(pairs)[pairs[index].0] == pairs[index].1,
    decreases pairs.len(),
{
    let rest = pairs.drop_last();
    if index < rest.len() {
        assert(crate::ipld::distinct_names(rest)) by {
            assert forall|i: int, j: int| 0 <= i < j < rest.len() implies (#[trigger] rest[i]).0
                != (#[trigger] rest[j]).0 by {
                assert(pairs[i].0 != pairs[j].0);
            }
        }
        lemma_fields_distinct(rest, index);
        assert(rest[index] == pairs[index]);
        assert(pairs[index].0 != pairs[pairs.len() - 1].0);
    }
}

/// A field that is there stands somewhere in the list of fields.
proof fn lemma_field_somewhere(pairs: Seq<(Seq<char>, IpldView)>, name: Seq<char>) -> (index: int)
    requires
        crate::ipld::fields_of(pairs).contains_key(name),
    ensures
        0 <= index < pairs.len(),
        pairs[index].0 == name,
    decreases pairs.len(),
{
    if pairs.last().0 == name {
        pairs.len() - 1
    } else {
        let index = lemma_field_somewhere(pairs.drop_last(), name);
        index
    }
}

/// Finds a field by its name.
fn find_field<'a>(pairs: &Vec<(&'a String, &'a Ipld)>, name: &str) -> (found: Option<&'a Ipld>)
    requires
        crate::ipld::distinct_names(crate::ipld::seen_fields(pairs@)),
    ensures
        ({
            let fields = crate::ipld::fields_of(crate::ipld::seen_fields(pairs@));
            match found {
                Some(found) => fields.contains_key(name@) && fields[name@]
                    == crate::ipld::ipld_view(*found),
                None => !fields.contains_key(name@),
            }
        }),
{
    let ghost all = crate::ipld::seen_fields(pairs@);
    let mut i: usize = 0;
    while i < pairs.len()
        invariant
            i <= pairs@.len(),
            all == crate::ipld::seen_fields(pairs@),
            crate::ipld::distinct_names(all),
            forall|j: int| 0 <= j < i ==> (#[trigger] all[j]).0 != name@,
        decreases pairs@.len() - i,
    {
        match compare_names(pairs[i].0.as_str(), name) {
            NameOrder::Same => {
                proof {
                    lemma_fields_distinct(all, i as int);
                }
                return Some(pairs[i].1);
            },
            _ => {},
        }
        assert(all[i as int].0 != name@);
        i += 1;
    }
    proof {
        if crate::ipld::fields_of(all).contains_key(name@) {
            let at = lemma_field_somewhere(all, name@);
            assert(all[at].0 != name@);
        }
    }
    None
}

/// A digest as an IPLD value: a list of its bytes.
pub open spec fn digest_written(digest: Seq<u8>) -> IpldView {
    IpldView::List(Seq::new(digest.len(), |i: int| IpldView::Integer(digest[i] as int)))
}

/// Whether a value is a byte.
pub open spec fn is_byte(value: IpldView) -> bool {
    value matches IpldView::Integer(number) && 0 <= number < 256
}

/// The bytes that a value is: bytes, or a list of numbers that are bytes.
pub open spec fn bytes_read(value: IpldView) -> Option<Seq<u8>> {
    match value {
        IpldView::Bytes(bytes) => Some(bytes),
        IpldView::List(list) => if forall|i: int|
            0 <= i < list.len() ==> is_byte(#[trigger] list[i]) {
            Some(Seq::new(list.len(), |i: int| list[i]->Integer_0 as u8))
        } else {
            None
        },
        _ => None,
    }
}

/// The digest that a value is.
pub open spec fn digest_read(value: IpldView) -> Option<Seq<u8>> {
    match bytes_read(value) {
        Some(bytes) => if value is List && bytes.len() == HASH_BYTE_SIZE {
            Some(bytes)
        } else {
            None
        },
        None => None,
    }
}

/// A digest is read as it was written.
proof fn lemma_digest(digest: Seq<u8>)
    requires
        digest.len() == HASH_BYTE_SIZE,
    ensures
        digest_read(digest_written(digest)) == Some(digest),
        crate::ipld::is_plain(digest_written(digest), 1),
{
    let value = digest_written(digest);
    let list = value->List_0;
    assert forall|i: int| 0 <= i < list.len() implies is_byte(#[trigger] list[i])
        && crate::ipld::is_plain(list[i], 0) by {}
    assert(Seq::new(list.len(), |i: int| list[i]->Integer_0 as u8) =~= digest);
}

/// Writes a digest.
fn digest_to_ipld(digest: &HashOutput) -> (ipld: Ipld)
    ensures
        crate::ipld::ipld_view(ipld) == digest_written(digest@),
{
    let mut list: Vec<Ipld> = Vec::new();
    let mut i: usize = 0;
    while i < HASH_BYTE_SIZE
        invariant
            i <= HASH_BYTE_SIZE,
            list@.len() == i,
            forall|j: int|
                0 <= j < i ==> crate::ipld::ipld_view(#[trigger] list@[j]) == IpldView::Integer(
                    digest@[j] as int,
                ),
        decreases HASH_BYTE_SIZE - i,
    {
        list.push(build(Parts::Integer(digest[i] as i128)));
        i += 1;
    }
    assert(crate::ipld::list_views(list@) =~= digest_written(digest@)->List_0);
    build(Parts::List(list))
}

/// Reads bytes.
fn bytes_from_ipld(ipld: &Ipld) -> (bytes: Option<Vec<u8>>)
    ensures
        match bytes_read(crate::ipld::ipld_view(*ipld)) {
            Some(expected) => bytes matches Some(bytes) && bytes@ == expected,
            None => bytes is None,
        },
{
    match shape(ipld) {
        Shape::Bytes(bytes) => {
            let mut copy: Vec<u8> = Vec::new();
            copy.extend_from_slice(bytes.as_slice());
            assert(copy@ =~= bytes@);
            Some(copy)
        },
        Shape::List(list) => {
            let ghost views = crate::ipld::list_views(list@);
            let mut bytes: Vec<u8> = Vec::new();
            let mut i: usize = 0;
            while i < list.len()
                invariant
                    i <= list@.len(),
                    bytes@.len() == i,
                    views == crate::ipld::list_views(list@),
                    crate::ipld::ipld_view(*ipld) == IpldView::List(views),
                    forall|j: int|
                        0 <= j < i ==> is_byte(#[trigger] views[j]) && bytes@[j]
                            == views[j]->Integer_0,
                decreases list@.len() - i,
            {
                assert(views[i as int] == crate::ipld::ipld_view(list@[i as int]));
                match shape(&list[i]) {
                    Shape::Integer(number) => {
                        if number < 0 || number > 255 {
                            assert(!is_byte(views[i as int]));
                            return None;
                        }
                        bytes.push(number as u8);
                    },
                    _ => {
                        assert(!is_byte(views[i as int]));
                        return None;
                    },
                }
                i += 1;
            }
            assert(bytes@ =~= Seq::new(views.len(), |j: int| views[j]->Integer_0 as u8));
            Some(bytes)
        },
        _ => None,
    }
}

/// Reads a digest.
fn digest_from_ipld(ipld: &Ipld) -> (digest: Option<HashOutput>)
    ensures
        match digest_read(crate::ipld::ipld_view(*ipld)) {
            Some(expected) => digest matches Some(digest) && digest@ == expected,
            None => digest is None,
        },
{
    match shape(ipld) {
        Shape::List(_) => {},
        _ => {
            return None;
        },
    }
    match bytes_from_ipld(ipld) {
        Some(bytes) => {
            if bytes.len() != HASH_BYTE_SIZE {
                return None;
            }
            let mut digest: HashOutput = [0u8; HASH_BYTE_SIZE];
            let mut i: usize = 0;
            while i < HASH_BYTE_SIZE
                invariant
                    i <= HASH_BYTE_SIZE,
                    bytes@.len() == HASH_BYTE_SIZE,
                    forall|j: int| 0 <= j < i ==> digest@[j] == bytes@[j],
                decreases HASH_BYTE_SIZE - i,
            {
                digest[i] = bytes[i];
                i += 1;
            }
            assert(digest@ =~= bytes@);
            Some(digest)
        },
        None => None,
    }
}

/// The text that a kind of node is written as.
pub open spec fn kind_written(kind: UnixFsNodeKind) -> Seq<char> {
    match kind {
        UnixFsNodeKind::File => "File"@,
        UnixFsNodeKind::Dir => "Dir"@,
    }
}

/// The fields of a node's UnixFS metadata.
pub open spec fn unix_fs_fields(unix_fs: UnixFsMetadata) -> Seq<(Seq<char>, IpldView)> {
    seq![
        ("created"@, IpldView::Integer(unix_fs.created as int)),
        ("modified"@, IpldView::Integer(unix_fs.modified as int)),
        ("kind"@, IpldView::Text(kind_written(unix_fs.kind))),
    ]
}

/// The UnixFS side of a node's metadata as an IPLD value.
pub open spec fn unix_fs_written(unix_fs: UnixFsMetadata) -> IpldView {
    IpldView::Fields(crate::ipld::fields_of(unix_fs_fields(unix_fs)))
}

/// The metadata of a node as an IPLD value.
pub open spec fn metadata_written(metadata: Metadata) -> IpldView {
    IpldView::Fields(
        crate::ipld::fields_of(seq![("unix_fs"@, unix_fs_written(metadata.unix_fs))]),
    )
}

/// The value in a field, if there is one.
pub open spec fn field(value: IpldView, name: Seq<char>) -> Option<IpldView> {
    match value {
        IpldView::Fields(fields) => if fields.contains_key(name) {
            Some(fields[name])
        } else {
            None
        },
        _ => None,
    }
}

/// The time that a value is.
pub open spec fn time_read(value: Option<IpldView>) -> Option<i64> {
    match value {
        Some(IpldView::Integer(number)) => if i64::MIN <= number <= i64::MAX {
            Some(number as i64)
        } else {
            None
        },
        _ => None,
    }
}

/// The kind of node that a value is.
pub open spec fn kind_read(value: Option<IpldView>) -> Option<UnixFsNodeKind> {
    match value {
        Some(IpldView::Text(text)) => if text == "File"@ {
            Some(UnixFsNodeKind::File)
        } else if text == "Dir"@ {
            Some(UnixFsNodeKind::Dir)
        } else {
            None
        },
        _ => None,
    }
}

/// The UnixFS metadata that a value is.
pub open spec fn unix_fs_read(value: IpldView) -> Option<UnixFsMetadata> {
    match (
        time_read(field(value, "created"@)),
        time_read(field(value, "modified"@)),
        kind_read(field(value, "kind"@)),
    ) {
        (Some(created), Some(modified), Some(kind)) => Some(
            UnixFsMetadata { created, modified, kind },
        ),
        _ => None,
    }
}

/// The metadata that a value is.
pub open spec fn metadata_read(value: IpldView) -> Option<Metadata> {
    match field(value, "unix_fs"@) {
        Some(unix_fs) => match unix_fs_read(unix_fs) {
            Some(unix_fs) => Some(Metadata { unix_fs }),
            None => None,
        },
        None => None,
    }
}

/// The names of the fields of a node differ from one another.
proof fn lemma_names_differ()
    ensures
        "created"@ != "modified"@,
        "created"@ != "kind"@,
        "modified"@ != "kind"@,
        "File"@ != "Dir"@,
        "metadata"@ != "content"@,
        "metadata"@ != "entries"@,
        "saturated_name_hash"@ != "content_key"@,
        "saturated_name_hash"@ != "ratchet_key"@,
        "content_key"@ != "ratchet_key"@,
        "bare_name"@ != "ratchet"@,
        "bare_name"@ != "inumber"@,
        "ratchet"@ != "inumber"@,
{
    reveal_strlit("created");
    reveal_strlit("modified");
    reveal_strlit("kind");
    reveal_strlit("File");
    reveal_strlit("Dir");
    reveal_strlit("metadata");
    reveal_strlit("content");
    reveal_strlit("entries");
    reveal_strlit("saturated_name_hash");
    reveal_strlit("content_key");
    reveal_strlit("ratchet_key");
    reveal_strlit("bare_name");
    reveal_strlit("ratchet");
    reveal_strlit("inumber");
    assert("created"@.len() == 7 && "modified"@.len() == 8 && "kind"@.len() == 4);
    assert("File"@.len() == 4 && "Dir"@.len() == 3);
    assert("metadata"@.len() == 8 && "content"@.len() == 7 && "entries"@.len() == 7);
    assert("saturated_name_hash"@.len() == 19);
    assert("content_key"@.len() == 11 && "ratchet_key"@.len() == 11);
    assert("bare_name"@.len() == 9 && "ratchet"@.len() == 7 && "inumber"@.len() == 7);
    assert("content_key"@[0] != "ratchet_key"@[0]);
    assert("ratchet"@[0] != "inumber"@[0]);
}

/// The map that three fields stand for.
proof fn lemma_three_fields(pairs: Seq<(Seq<char>, IpldView)>, depth: nat)
    requires
        pairs.len() == 3,
        pairs[0].0 != pairs[1].0,
        pairs[0].0 != pairs[2].0,
        pairs[1].0 != pairs[2].0,
    ensures
        ({
            let value = IpldView::Fields(crate::ipld::fields_of(pairs));
            &&& crate::ipld::distinct_names(pairs)
            &&& field(value, pairs[0].0) == Some(pairs[0].1)
            &&& field(value, pairs[1].0) == Some(pairs[1].1)
            &&& field(value, pairs[2].0) == Some(pairs[2].1)
            &&& (crate::ipld::is_plain(pairs[0].1, depth) && crate::ipld::is_plain(
                pairs[1].1,
                depth,
            ) && crate::ipld::is_plain(pairs[2].1, depth)) ==> crate::ipld::is_plain(
                value,
                (depth + 1) as nat,
            )
        }),
{
    lemma_fields_distinct(pairs, 0);
    lemma_fields_distinct(pairs, 1);
    lemma_fields_distinct(pairs, 2);
    lemma_plain_fields(pairs, depth);
}

/// The map that two fields stand for.
proof fn lemma_two_fields(pairs: Seq<(Seq<char>, IpldView)>, depth: nat)
    requires
        pairs.len() == 2,
        pairs[0].0 != pairs[1].0,
    ensures
        ({
            let value = IpldView::Fields(crate::ipld::fields_of(pairs));
            &&& crate::ipld::distinct_names(pairs)
            &&& field(value, pairs[0].0) == Some(pairs[0].1)
            &&& field(value, pairs[1].0) == Some(pairs[1].1)
            &&& (crate::ipld::is_plain(pairs[0].1, depth) && crate::ipld::is_plain(
                pairs[1].1,
                depth,
            )) ==> crate::ipld::is_plain(value, (depth + 1) as nat)
        }),
{
    lemma_fields_distinct(pairs, 0);
    lemma_fields_distinct(pairs, 1);
    lemma_plain_fields(pairs, depth);
}

/// A map of plain values is plain.
proof fn lemma_plain_fields(pairs: Seq<(Seq<char>, IpldView)>, depth: nat)
    requires
        crate::ipld::distinct_names(pairs),
    ensures
        (forall|i: int|
            0 <= i < pairs.len() ==> crate::ipld::is_plain((#[trigger] pairs[i]).1, depth))
            ==> crate::ipld::is_plain(
            IpldView::Fields(crate::ipld::fields_of(pairs)),
            (depth + 1) as nat,
        ),
{
    let fields = crate::ipld::fields_of(pairs);
    if forall|i: int|
        0 <= i < pairs.len() ==> crate::ipld::is_plain((#[trigger] pairs[i]).1, depth) {
        assert forall|name: Seq<char>| #[trigger]
            fields.contains_key(name) implies crate::ipld::is_plain(fields[name], depth) by {
            let at = lemma_field_somewhere(pairs, name);
            lemma_fields_distinct(pairs, at);
        }
    }
}

/// Metadata is read as it was written.
proof fn lemma_metadata(metadata: Metadata)
    ensures
        metadata_read(metadata_written(metadata)) == Some(metadata),
        crate::ipld::is_plain(metadata_written(metadata), 2),
{
    lemma_names_differ();
    let inner = unix_fs_fields(metadata.unix_fs);
    lemma_three_fields(inner, 0);
    let outer = seq![("unix_fs"@, unix_fs_written(metadata.unix_fs))];
    assert(crate::ipld::distinct_names(outer));
    lemma_fields_distinct(outer, 0);
    assert(outer[0] == ("unix_fs"@, unix_fs_written(metadata.unix_fs)));
    lemma_plain_fields(outer, 1);
}

/// Writes metadata.
fn metadata_to_ipld(metadata: &Metadata) -> (ipld: Ipld)
    ensures
        crate::ipld::ipld_view(ipld) == metadata_written(*metadata),
{
    proof {
        lemma_names_differ();
        lemma_three_fields(unix_fs_fields(metadata.unix_fs), 0);
    }
    let kind = match metadata.unix_fs.kind {
        UnixFsNodeKind::File => "File",
        UnixFsNodeKind::Dir => "Dir",
    };
    let mut inner: Vec<(String, Ipld)> = Vec::new();
    inner.push(("created".to_owned(), build(Parts::Integer(metadata.unix_fs.created as i128))));
    inner.push(("modified".to_owned(), build(Parts::Integer(metadata.unix_fs.modified as i128))));
    inner.push(("kind".to_owned(), build(Parts::Text(kind.to_owned()))));
    assert(crate::ipld::given_fields(inner@) =~= unix_fs_fields(metadata.unix_fs));
    let mut outer: Vec<(String, Ipld)> = Vec::new();
    outer.push(("unix_fs".to_owned(), build(Parts::Fields(inner))));
    assert(crate::ipld::given_fields(outer@) =~= seq![
        ("unix_fs"@, unix_fs_written(metadata.unix_fs)),
    ]);
    build(Parts::Fields(outer))
}

/// Reads the value in a field.
fn get_field<'a>(ipld: &'a Ipld, name: &str) -> (found: Option<&'a Ipld>)
    ensures
        match field(crate::ipld::ipld_view(*ipld), name@) {
            Some(value) => found matches Some(found) && crate::ipld::ipld_view(*found) == value,
            None => found is None,
        },
{
    match shape(ipld) {
        Shape::Fields(pairs) => find_field(&pairs, name),
        _ => None,
    }
}

/// Reads a time in a field.
fn time_from_field(ipld: &Ipld, name: &str) -> (time: Option<i64>)
    ensures
        time == time_read(field(crate::ipld::ipld_view(*ipld), name@)),
{
    match get_field(ipld, name) {
        Some(value) => match shape(value) {
            Shape::Integer(number) => if number < i64::MIN as i128 || number > i64::MAX as i128 {
                None
            } else {
                Some(number as i64)
            },
            _ => None,
        },
        None => None,
    }
}

/// Reads a kind of node in a field.
fn kind_from_field(ipld: &Ipld, name: &str) -> (kind: Option<UnixFsNodeKind>)
    ensures
        kind == kind_read(field(crate::ipld::ipld_view(*ipld), name@)),
{
    match get_field(ipld, name) {
        Some(value) => match shape(value) {
            Shape::Text(text) => {
                if matches!(compare_names(text.as_str(), "File"), NameOrder::Same) {
                    Some(UnixFsNodeKind::File)
                } else if matches!(compare_names(text.as_str(), "Dir"), NameOrder::Same) {
                    Some(UnixFsNodeKind::Dir)
                } else {
                    None
                }
            },
            _ => None,
        },
        None => None,
    }
}

/// Reads metadata.
fn metadata_from_ipld(ipld: &Ipld) -> (metadata: Option<Metadata>)
    ensures
        metadata == metadata_read(crate::ipld::ipld_view(*ipld)),
{
    match get_field(ipld, "unix_fs") {
        Some(unix_fs) => {
            match (
                time_from_field(unix_fs, "created"),
                time_from_field(unix_fs, "modified"),
                kind_from_field(unix_fs, "kind"),
            ) {
                (Some(created), Some(modified), Some(kind)) => Some(
                    Metadata { unix_fs: UnixFsMetadata { created, modified, kind } },
                ),
                _ => None,
            }
        },
        None => None,
    }
}

/// A ratchet key as an IPLD value: its encrypted form. A bare key is not written.
pub open spec fn key_written(key: Option<RatchetKeyView>) -> Option<IpldView> {
    match key {
        Some(RatchetKeyView::Encrypted { encrypted, .. }) => Some(IpldView::Bytes(encrypted)),
        Some(RatchetKeyView::Bare(_)) => None,
        None => Some(IpldView::Null),
    }
}

/// The ratchet key that a value is, if it is one, or its absence.
pub open spec fn key_read(value: Option<IpldView>) -> Option<Option<RatchetKeyView>> {
    match value {
        None | Some(IpldView::Null) => Some(None),
        Some(value) => match bytes_read(value) {
            Some(bytes) => Some(
                Some(RatchetKeyView::Encrypted { encrypted: bytes, bare: None }),
            ),
            None => None,
        },
    }
}

/// A ratchet key as it comes back from where it was stored: its bare form is not known.
pub open spec fn key_stored(key: Option<RatchetKeyView>) -> Option<RatchetKeyView> {
    match key {
        Some(RatchetKeyView::Encrypted { encrypted, .. }) => Some(
            RatchetKeyView::Encrypted { encrypted, bare: None },
        ),
        other => other,
    }
}

/// A ratchet key that can be written is read as it was stored: its bare form is not known.
pub proof fn law_stored_ratchet_key_comes_back(key: Option<RatchetKeyView>)
    requires
        key_written(key) is Some,
    ensures
        key_read(key_written(key)) == Some(key_stored(key)),
{
}

/// The fields of a reference, where `key` is what its ratchet key is written as.
pub open spec fn ref_fields(private_ref: PrivateRefView, key: IpldView) -> Seq<
    (Seq<char>, IpldView),
> {
    seq![
        ("saturated_name_hash"@, digest_written(private_ref.saturated_name_hash)),
        ("content_key"@, digest_written(private_ref.content_key)),
        ("ratchet_key"@, key),
    ]
}

/// A reference as an IPLD value.
pub open spec fn ref_written(private_ref: PrivateRefView) -> Option<IpldView> {
    match key_written(private_ref.ratchet_key) {
        Some(key) => Some(
            IpldView::Fields(crate::ipld::fields_of(ref_fields(private_ref, key))),
        ),
        None => None,
    }
}

/// The digest in a field.
pub open spec fn digest_field_read(value: IpldView, name: Seq<char>) -> Option<Seq<u8>> {
    match field(value, name) {
        Some(value) => digest_read(value),
        None => None,
    }
}

/// The reference that a value is.
pub open spec fn ref_read(value: IpldView) -> Option<PrivateRefView> {
    match (
        digest_field_read(value, "saturated_name_hash"@),
        digest_field_read(value, "content_key"@),
        key_read(field(value, "ratchet_key"@)),
    ) {
        (Some(saturated_name_hash), Some(content_key), Some(ratchet_key)) => Some(
            PrivateRefView { saturated_name_hash, content_key, ratchet_key },
        ),
        _ => None,
    }
}

/// A reference as it comes back from where it was stored.
pub open spec fn ref_stored(private_ref: PrivateRefView) -> PrivateRefView {
    PrivateRefView { ratchet_key: key_stored(private_ref.ratchet_key), ..private_ref }
}

/// Whether the digests in a reference are digests.
pub open spec fn is_ref(private_ref: PrivateRefView) -> bool {
    private_ref.saturated_name_hash.len() == HASH_BYTE_SIZE && private_ref.content_key.len()
        == HASH_BYTE_SIZE
}

/// A reference is read as it was stored.
proof fn lemma_ref(private_ref: PrivateRefView)
    requires
        is_ref(private_ref),
        ref_written(private_ref) is Some,
    ensures
        ref_read(ref_written(private_ref)->0) == Some(ref_stored(private_ref)),
        crate::ipld::is_plain(ref_written(private_ref)->0, 2),
{
    lemma_names_differ();
    lemma_digest(private_ref.saturated_name_hash);
    lemma_digest(private_ref.content_key);
    let key = key_written(private_ref.ratchet_key)->0;
    lemma_three_fields(ref_fields(private_ref, key), 1);
}

/// Writes a reference.
fn ref_to_ipld(private_ref: &PrivateRef) -> (ipld: Result<Ipld, NodeError>)
    ensures
        match ref_written(private_ref@) {
            Some(value) => ipld matches Ok(ipld) && crate::ipld::ipld_view(ipld) == value,
            None => ipld matches Err(error) && error@ == NodeErrorView::ExpectEncryptedRatchetKey,
        },
{
    let key = match &private_ref.ratchet_key {
        Some(key) => match key.serialize() {
            Ok(bytes) => build(Parts::Bytes(bytes)),
            Err(_) => {
                return Err(NodeError::ExpectEncryptedRatchetKey);
            },
        },
        None => build(Parts::Null),
    };
    let ghost written = crate::ipld::ipld_view(key);
    proof {
        lemma_names_differ();
        lemma_three_fields(ref_fields(private_ref@, written), 1);
    }
    let mut pairs: Vec<(String, Ipld)> = Vec::new();
    pairs.push(
        ("saturated_name_hash".to_owned(), digest_to_ipld(&private_ref.saturated_name_hash)),
    );
    pairs.push(("content_key".to_owned(), digest_to_ipld(&private_ref.content_key.0)));
    pairs.push(("ratchet_key".to_owned(), key));
    assert(crate::ipld::given_fields(pairs@) =~= ref_fields(private_ref@, written));
    Ok(build(Parts::Fields(pairs)))
}

/// Reads a digest in a field.
fn digest_from_field(ipld: &Ipld, name: &str) -> (digest: Option<HashOutput>)
    ensures
        match digest_field_read(crate::ipld::ipld_view(*ipld), name@) {
            Some(expected) => digest matches Some(digest) && digest@ == expected,
            None => digest is None,
        },
{
    match get_field(ipld, name) {
        Some(value) => digest_from_ipld(value),
        None => None,
    }
}

/// Reads a reference.
fn ref_from_ipld(ipld: &Ipld) -> (private_ref: Option<PrivateRef>)
    ensures
        match ref_read(crate::ipld::ipld_view(*ipld)) {
            Some(expected) => private_ref matches Some(private_ref) && private_ref@ == expected,
            None => private_ref is None,
        },
{
    let saturated_name_hash = match digest_from_field(ipld, "saturated_name_hash") {
        Some(digest) => digest,
        None => {
            return None;
        },
    };
    let content_key = match digest_from_field(ipld, "content_key") {
        Some(digest) => Key(digest),
        None => {
            return None;
        },
    };
    let ratchet_key = match get_field(ipld, "ratchet_key") {
        Some(value) => match shape(value) {
            Shape::Null => None,
            _ => match bytes_from_ipld(value) {
                Some(bytes) => Some(RatchetKey::deserialize(bytes)),
                None => {
                    return None;
                },
            },
        },
        None => None,
    };
    Some(PrivateRef { saturated_name_hash, content_key, ratchet_key })
}

/// Whether every reference in a directory can be written.
pub open spec fn entries_writable(entries: Map<Seq<char>, PrivateRefView>) -> bool {
    forall|name: Seq<char>| #[trigger]
        entries.contains_key(name) ==> ref_written(entries[name]) is Some
}

/// The entries of a directory as an IPLD value.
pub open spec fn entries_written(entries: Map<Seq<char>, PrivateRefView>) -> Option<IpldView> {
    if entries_writable(entries) {
        Some(
            IpldView::Fields(
                Map::new(
                    |name: Seq<char>| entries.contains_key(name),
                    |name: Seq<char>| ref_written(entries[name])->0,
                ),
            ),
        )
    } else {
        None
    }
}

/// The entries that a value is.
pub open spec fn entries_read(value: IpldView) -> Option<Map<Seq<char>, PrivateRefView>> {
    match value {
        IpldView::Fields(fields) => if forall|name: Seq<char>| #[trigger]
            fields.contains_key(name) ==> ref_read(fields[name]) is Some {
            Some(
                Map::new(
                    |name: Seq<char>| fields.contains_key(name),
                    |name: Seq<char>| ref_read(fields[name])->0,
                ),
            )
        } else {
            None
        },
        _ => None,
    }
}

/// The entries of a directory as they come back from where they were stored.
pub open spec fn entries_stored(entries: Map<Seq<char>, PrivateRefView>) -> Map<
    Seq<char>,
    PrivateRefView,
> {
    Map::new(
        |name: Seq<char>| entries.contains_key(name),
        |name: Seq<char>| ref_stored(entries[name]),
    )
}

/// Entries are read as they were stored.
proof fn lemma_entries(entries: Map<Seq<char>, PrivateRefView>)
    requires
        entries_writable(entries),
        forall|name: Seq<char>| #[trigger] entries.contains_key(name) ==> is_ref(entries[name]),
    ensures
        entries_read(entries_written(entries)->0) == Some(entries_stored(entries)),
        crate::ipld::is_plain(entries_written(entries)->0, 3),
{
    let value = entries_written(entries)->0;
    let fields = value->Fields_0;
    assert forall|name: Seq<char>| #[trigger] fields.contains_key(name) implies ref_read(
        fields[name],
    ) == Some(ref_stored(entries[name])) && crate::ipld::is_plain(fields[name], 2) by {
        assert(entries.contains_key(name));
        lemma_ref(entries[name]);
    }
    assert(entries_read(value)->0 =~= entries_stored(entries));
}

/// Writes the entries of a directory.
fn entries_to_ipld(entries: &Entries) -> (ipld: Result<Ipld, NodeError>)
    ensures
        match entries_written(entries@) {
            Some(value) => ipld matches Ok(ipld) && crate::ipld::ipld_view(ipld) == value,
            None => ipld matches Err(error) && error@ == NodeErrorView::ExpectEncryptedRatchetKey,
        },
{
    let ghost names = entries.names();
    let count: usize = entries.len();
    let mut pairs: Vec<(String, Ipld)> = Vec::new();
    let mut i: usize = 0;
    while i < count
        invariant
            i <= count,
            count == names.len(),
            names == entries.names(),
            crate::private::entries::enumerates(names, entries@),
            pairs@.len() == i,
            forall|j: int|
                0 <= j < i ==> {
                    let pair = #[trigger] crate::ipld::given_fields(pairs@)[j];
                    &&& pair.0 == names[j]
                    &&& entries@.contains_key(names[j])
                    &&& ref_written(entries@[names[j]]) == Some(pair.1)
                },
        decreases count - i,
    {
        let entry = entries.entry(i);
        let ghost before = crate::ipld::given_fields(pairs@);
        match ref_to_ipld(&entry.private_ref) {
            Ok(ipld) => {
                pairs.push((entry.name.clone(), ipld));
                proof {
                    let after = crate::ipld::given_fields(pairs@);
                    assert forall|j: int| 0 <= j < i + 1 implies {
                        let pair = #[trigger] after[j];
                        &&& pair.0 == names[j]
                        &&& entries@.contains_key(names[j])
                        &&& ref_written(entries@[names[j]]) == Some(pair.1)
                    } by {
                        if j < i {
                            assert(after[j] == before[j]);
                        }
                    }
                }
            },
            Err(error) => {
                assert(entries@.contains_key(entry.name@));
                assert(!entries_writable(entries@));
                return Err(error);
            },
        }
        i += 1;
    }
    proof {
        let all = crate::ipld::given_fields(pairs@);
        assert(crate::ipld::distinct_names(all)) by {
            assert forall|a: int, b: int| 0 <= a < b < all.len() implies (#[trigger] all[a]).0 != (
            #[trigger] all[b]).0 by {
                crate::private::order::lemma_irreflexive(names[a]);
                assert(crate::private::order::name_before(names[a], names[b]));
            }
        }
        assert forall|name: Seq<char>| #[trigger] entries@.contains_key(name) implies ref_written(
            entries@[name],
        ) is Some by {
            assert(names.contains(name));
            let at = choose|k: int| 0 <= k < names.len() && names[k] == name;
            assert(all[at].0 == names[at]);
        }
        let fields = crate::ipld::fields_of(all);
        let expected = entries_written(entries@)->0->Fields_0;
        assert forall|name: Seq<char>| #[trigger]
            fields.contains_key(name) == expected.contains_key(name) && (fields.contains_key(name)
            ==> fields[name] == expected[name]) by {
            if fields.contains_key(name) {
                let at = lemma_field_somewhere(all, name);
                lemma_fields_distinct(all, at);
            }
            if entries@.contains_key(name) {
                assert(names.contains(name));
                let at = choose|k: int| 0 <= k < names.len() && names[k] == name;
                assert(all[at].0 == names[at]);
                lemma_fields_distinct(all, at);
            }
        }
        assert(fields =~= expected);
    }
    Ok(build(Parts::Fields(pairs)))
}

/// Reads the entries of a directory.
fn entries_from_ipld(ipld: &Ipld) -> (entries: Option<Entries>)
    ensures
        match entries_read(crate::ipld::ipld_view(*ipld)) {
            Some(expected) => entries matches Some(entries) && entries@ == expected,
            None => entries is None,
        },
{
    match shape(ipld) {
        Shape::Fields(pairs) => {
            let ghost all = crate::ipld::seen_fields(pairs@);
            let ghost fields = crate::ipld::fields_of(all);
            let mut entries = Entries::new();
            let mut i: usize = 0;
            while i < pairs.len()
                invariant
                    i <= pairs@.len(),
                    all == crate::ipld::seen_fields(pairs@),
                    fields == crate::ipld::fields_of(all),
                    crate::ipld::distinct_names(all),
                    crate::ipld::ipld_view(*ipld) == IpldView::Fields(fields),
                    forall|j: int|
                        0 <= j < i ==> ref_read((#[trigger] all[j]).1) is Some
                            && entries@.contains_key(all[j].0) && entries@[all[j].0] == ref_read(
                            all[j].1,
                        )->0,
                    forall|name: Seq<char>| #[trigger]
                        entries@.contains_key(name) ==> fields.contains_key(name),
                decreases pairs@.len() - i,
            {
                proof {
                    lemma_fields_distinct(all, i as int);
                    assert(all[i as int] == (
                        pairs@[i as int].0@,
                        crate::ipld::ipld_view(*pairs@[i as int].1),
                    ));
                }
                match ref_from_ipld(pairs[i].1) {
                    Some(private_ref) => {
                        let ghost before = entries@;
                        entries.insert(pairs[i].0.clone(), private_ref);
                        proof {
                            assert forall|j: int| 0 <= j < i implies entries@[(
                            #[trigger] all[j]).0] == before[all[j].0] by {
                                assert(all[j].0 != all[i as int].0);
                            }
                        }
                    },
                    None => {
                        return None;
                    },
                }
                i += 1;
            }
            proof {
                assert forall|name: Seq<char>| #[trigger] fields.contains_key(name) implies
                    entries@.contains_key(name) && ref_read(fields[name]) == Some(
                    entries@[name],
                ) by {
                    let at = lemma_field_somewhere(all, name);
                    lemma_fields_distinct(all, at);
                }
                assert(entries@ =~= entries_read(IpldView::Fields(fields))->0);
            }
            Some(entries)
        },
        _ => None,
    }
}

/// The content of a node: that of a file, or that of a directory.
pub enum ContentView {
    File(PrivateFileContentView),
    Dir(PrivateDirectoryContentView),
}

/// What a node holds whose header may not be known.
pub struct HeldNodeView {
    pub header: Option<PrivateNodeHeaderView>,
    pub content: ContentView,
}

/// What a header holds that may not be known.
pub open spec fn held_header(header: Option<PrivateNodeHeader>) -> Option<PrivateNodeHeaderView> {
    match header {
        Some(header) => Some(header@),
        None => None,
    }
}

impl View for PrivateNode<Option<PrivateNodeHeader>> {
    type V = HeldNodeView;

    open spec fn view(&self) -> HeldNodeView {
        match self {
            PrivateNode::File(file) => HeldNodeView {
                header: held_header(file.header),
                content: ContentView::File(file.content@),
            },
            PrivateNode::Dir(dir) => HeldNodeView {
                header: held_header(dir.header),
                content: ContentView::Dir(dir.content@),
            },
        }
    }
}

/// The fields of a file's content.
pub open spec fn file_fields(content: PrivateFileContentView) -> Seq<(Seq<char>, IpldView)> {
    seq![
        ("metadata"@, metadata_written(content.metadata)),
        ("content"@, IpldView::Bytes(content.content)),
    ]
}

/// The fields of a directory's content, where `entries` is what its entries are written as.
pub open spec fn directory_fields(metadata: Metadata, entries: IpldView) -> Seq<
    (Seq<char>, IpldView),
> {
    seq![("metadata"@, metadata_written(metadata)), ("entries"@, entries)]
}

/// The content of a node as an IPLD value.
pub open spec fn content_written(content: ContentView) -> Option<IpldView> {
    match content {
        ContentView::File(file) => Some(
            IpldView::Fields(crate::ipld::fields_of(file_fields(file))),
        ),
        ContentView::Dir(dir) => match entries_written(dir.entries) {
            Some(entries) => Some(
                IpldView::Fields(
                    crate::ipld::fields_of(directory_fields(dir.metadata, entries)),
                ),
            ),
            None => None,
        },
    }
}

/// The content of a file that a value is.
pub open spec fn file_read(value: IpldView, metadata: Metadata) -> Option<ContentView> {
    match field(value, "content"@) {
        Some(content) => match bytes_read(content) {
            Some(content) => Some(ContentView::File(PrivateFileContentView { metadata, content })),
            None => None,
        },
        None => None,
    }
}

/// The content of a directory that a value is.
pub open spec fn directory_read(value: IpldView, metadata: Metadata) -> Option<ContentView> {
    match field(value, "entries"@) {
        Some(entries) => match entries_read(entries) {
            Some(entries) => Some(
                ContentView::Dir(PrivateDirectoryContentView { metadata, entries }),
            ),
            None => None,
        },
        None => None,
    }
}

/// The content of a node that a value is. Its metadata says of which kind it is.
pub open spec fn content_read(value: IpldView) -> Result<ContentView, NodeErrorView> {
    if value !is Fields {
        Err(
            NodeErrorView::InvalidDeserialization(
                "Expected `Ipld::Map` got "@ + crate::ipld::ipld_debug(value),
            ),
        )
    } else {
        match field(value, "metadata"@) {
            None => Err(NodeErrorView::MissingMetadataField),
            Some(metadata) => match metadata_read(metadata) {
                None => Err(NodeErrorView::InvalidMetadata),
                Some(metadata) => match if metadata.unix_fs.kind == UnixFsNodeKind::File {
                    file_read(value, metadata)
                } else {
                    directory_read(value, metadata)
                } {
                    Some(content) => Ok(content),
                    None => Err(NodeErrorView::InvalidContent),
                },
            },
        }
    }
}

/// The content of a node as it comes back from where it was stored.
pub open spec fn content_stored(content: ContentView) -> ContentView {
    match content {
        ContentView::Dir(dir) => ContentView::Dir(
            PrivateDirectoryContentView { entries: entries_stored(dir.entries), ..dir },
        ),
        file => file,
    }
}

/// Whether the content of a node leads to other nodes by digests.
pub open spec fn has_digests(content: ContentView) -> bool {
    content matches ContentView::Dir(dir) ==> forall|name: Seq<char>| #[trigger]
        dir.entries.contains_key(name) ==> is_ref(dir.entries[name])
}

/// Whether the content of a node is of the kind that its metadata says.
pub open spec fn is_of_its_kind(content: ContentView) -> bool {
    match content {
        ContentView::File(file) => file.metadata.unix_fs.kind == UnixFsNodeKind::File,
        ContentView::Dir(dir) => dir.metadata.unix_fs.kind == UnixFsNodeKind::Dir,
    }
}

/// Content is plain, and is read as it was stored if it is of its kind.
proof fn lemma_content(content: ContentView)
    requires
        has_digests(content),
        content_written(content) is Some,
    ensures
        is_of_its_kind(content) ==> content_read(content_written(content)->0) == Ok::<
            _,
            NodeErrorView,
        >(content_stored(content)),
        crate::ipld::is_plain(content_written(content)->0, 4),
{
    lemma_names_differ();
    match content {
        ContentView::File(file) => {
            lemma_metadata(file.metadata);
            lemma_deeper(metadata_written(file.metadata), 2, 3);
            lemma_two_fields(file_fields(file), 3);
        },
        ContentView::Dir(dir) => {
            lemma_metadata(dir.metadata);
            lemma_deeper(metadata_written(dir.metadata), 2, 3);
            lemma_entries(dir.entries);
            let entries = entries_written(dir.entries)->0;
            lemma_two_fields(directory_fields(dir.metadata, entries), 3);
        },
    }
}

/// A value that is plain is plain at any greater depth.
proof fn lemma_deeper(value: IpldView, less: nat, more: nat)
    requires
        crate::ipld::is_plain(value, less),
        less <= more,
    ensures
        crate::ipld::is_plain(value, more),
    decreases less,
{
    match value {
        IpldView::List(list) => {
            assert forall|i: int| 0 <= i < list.len() implies crate::ipld::is_plain(
                #[trigger] list[i],
                (more - 1) as nat,
            ) by {
                lemma_deeper(list[i], (less - 1) as nat, (more - 1) as nat);
            }
        },
        IpldView::Fields(fields) => {
            assert forall|name: Seq<char>| #[trigger]
                fields.contains_key(name) implies crate::ipld::is_plain(
                fields[name],
                (more - 1) as nat,
            ) by {
                lemma_deeper(fields[name], (less - 1) as nat, (more - 1) as nat);
            }
        },
        _ => {},
    }
}

/// A name as an IPLD value: a list of its elements.
pub open spec fn name_written(name: Seq<Seq<u8>>) -> IpldView {
    IpldView::List(name.map_values(|element: Seq<u8>| digest_written(element)))
}

/// The name that a value is.
pub open spec fn name_read(value: IpldView) -> Option<Seq<Seq<u8>>> {
    match value {
        IpldView::List(list) => if forall|i: int|
            0 <= i < list.len() ==> digest_read(#[trigger] list[i]) is Some {
            Some(Seq::new(list.len(), |i: int| digest_read(list[i])->0))
        } else {
            None
        },
        _ => None,
    }
}

/// The fields of a header.
pub open spec fn header_fields(header: PrivateNodeHeaderView) -> Seq<(Seq<char>, IpldView)> {
    seq![
        ("bare_name"@, name_written(header.bare_name)),
        ("ratchet"@, crate::ratchet::ratchet_written(header.ratchet)),
        ("inumber"@, digest_written(header.inumber)),
    ]
}

/// A header as an IPLD value.
pub open spec fn header_written(header: PrivateNodeHeaderView) -> IpldView {
    IpldView::Fields(crate::ipld::fields_of(header_fields(header)))
}

/// The ratchet that a value is, if there is one.
pub open spec fn ratchet_field_read(value: Option<IpldView>) -> Option<Seq<u8>> {
    match value {
        Some(value) => crate::ratchet::ratchet_read(value),
        None => None,
    }
}

/// The name that a value is, if there is one.
pub open spec fn name_field_read(value: Option<IpldView>) -> Option<Seq<Seq<u8>>> {
    match value {
        Some(value) => name_read(value),
        None => None,
    }
}

/// The header that a value is.
pub open spec fn header_read(value: IpldView) -> Option<PrivateNodeHeaderView> {
    match (
        name_field_read(field(value, "bare_name"@)),
        ratchet_field_read(field(value, "ratchet"@)),
        digest_field_read(value, "inumber"@),
    ) {
        (Some(bare_name), Some(ratchet), Some(inumber)) => Some(
            PrivateNodeHeaderView { bare_name, ratchet, inumber },
        ),
        _ => None,
    }
}

/// Whether the digests in a header are digests.
pub open spec fn is_header(header: PrivateNodeHeaderView) -> bool {
    &&& header.inumber.len() == HASH_BYTE_SIZE
    &&& forall|i: int|
        0 <= i < header.bare_name.len() ==> (#[trigger] header.bare_name[i]).len()
            == HASH_BYTE_SIZE
}

/// A header is read as it was written, if its ratchet is.
proof fn lemma_header(header: PrivateNodeHeaderView)
    requires
        is_header(header),
        crate::ratchet::ratchet_read(crate::ratchet::ratchet_written(header.ratchet)) == Some(
            header.ratchet,
        ),
        crate::ipld::is_plain(crate::ratchet::ratchet_written(header.ratchet), 1),
    ensures
        header_read(header_written(header)) == Some(header),
        crate::ipld::is_plain(header_written(header), 3),
{
    lemma_names_differ();
    let list = name_written(header.bare_name)->List_0;
    assert forall|i: int| 0 <= i < list.len() implies digest_read(#[trigger] list[i]) == Some(
        header.bare_name[i],
    ) && crate::ipld::is_plain(list[i], 1) by {
        lemma_digest(header.bare_name[i]);
    }
    assert(name_read(name_written(header.bare_name))->0 =~= header.bare_name);
    assert(crate::ipld::is_plain(name_written(header.bare_name), 2));
    lemma_digest(header.inumber);
    lemma_deeper(digest_written(header.inumber), 1, 2);
    lemma_deeper(crate::ratchet::ratchet_written(header.ratchet), 1, 2);
    lemma_three_fields(header_fields(header), 2);
}

/// Writes a name.
fn name_to_ipld(name: &Namefilter) -> (ipld: Ipld)
    ensures
        crate::ipld::ipld_view(ipld) == name_written(name@),
{
    let count: usize = name.len();
    let mut list: Vec<Ipld> = Vec::new();
    let mut i: usize = 0;
    while i < count
        invariant
            i <= count,
            count == name@.len(),
            list@.len() == i,
            forall|j: int|
                0 <= j < i ==> crate::ipld::ipld_view(#[trigger] list@[j]) == digest_written(
                    name@[j],
                ),
        decreases count - i,
    {
        list.push(digest_to_ipld(name.element(i)));
        i += 1;
    }
    assert(crate::ipld::list_views(list@) =~= name_written(name@)->List_0);
    build(Parts::List(list))
}

/// Reads a name.
fn name_from_ipld(ipld: &Ipld) -> (name: Option<Namefilter>)
    ensures
        match name_read(crate::ipld::ipld_view(*ipld)) {
            Some(expected) => name matches Some(name) && name@ == expected,
            None => name is None,
        },
{
    match shape(ipld) {
        Shape::List(list) => {
            let ghost views = crate::ipld::list_views(list@);
            let mut name = Namefilter::default();
            let mut i: usize = 0;
            while i < list.len()
                invariant
                    i <= list@.len(),
                    name@.len() == i,
                    views == crate::ipld::list_views(list@),
                    crate::ipld::ipld_view(*ipld) == IpldView::List(views),
                    forall|j: int|
                        0 <= j < i ==> digest_read(#[trigger] views[j]) == Some(name@[j]),
                decreases list@.len() - i,
            {
                assert(views[i as int] == crate::ipld::ipld_view(list@[i as int]));
                match digest_from_ipld(&list[i]) {
                    Some(digest) => {
                        name.add(&digest);
                    },
                    None => {
                        return None;
                    },
                }
                i += 1;
            }
            assert(name@ =~= name_read(IpldView::List(views))->0);
            Some(name)
        },
        _ => None,
    }
}

/// Writes a header.
fn header_to_ipld(header: &PrivateNodeHeader) -> (ipld: Ipld)
    ensures
        crate::ipld::ipld_view(ipld) == header_written(header@),
        crate::ipld::is_plain(header_written(header@), 3),
        header_read(header_written(header@)) == Some(header@),
{
    let ratchet = ratchet_to_ipld(&header.ratchet);
    proof {
        assert(is_header(header@)) by {
            header.bare_name.lemma_elements();
        }
        lemma_names_differ();
        lemma_header(header@);
        lemma_three_fields(header_fields(header@), 2);
    }
    let mut pairs: Vec<(String, Ipld)> = Vec::new();
    pairs.push(("bare_name".to_owned(), name_to_ipld(&header.bare_name)));
    pairs.push(("ratchet".to_owned(), ratchet));
    pairs.push(("inumber".to_owned(), digest_to_ipld(&header.inumber)));
    assert(crate::ipld::given_fields(pairs@) =~= header_fields(header@));
    build(Parts::Fields(pairs))
}

/// Reads a header.
fn header_from_ipld(ipld: &Ipld) -> (header: Option<PrivateNodeHeader>)
    ensures
        held_header(header) == header_read(crate::ipld::ipld_view(*ipld)),
{
    let bare_name = match get_field(ipld, "bare_name") {
        Some(value) => match name_from_ipld(value) {
            Some(name) => name,
            None => {
                return None;
            },
        },
        None => {
            return None;
        },
    };
    let ratchet = match get_field(ipld, "ratchet") {
        Some(value) => match ratchet_from_ipld(value) {
            Some(ratchet) => ratchet,
            None => {
                return None;
            },
        },
        None => {
            return None;
        },
    };
    match digest_from_field(ipld, "inumber") {
        Some(inumber) => Some(PrivateNodeHeader { bare_name, ratchet, inumber }),
        None => None,
    }
}

/// Writes the content of a file.
fn file_to_ipld(content: &PrivateFileContent) -> (ipld: Ipld)
    ensures
        content_written(ContentView::File(content@)) == Some(crate::ipld::ipld_view(ipld)),
{
    proof {
        lemma_names_differ();
        lemma_two_fields(file_fields(content@), 3);
    }
    let mut pairs: Vec<(String, Ipld)> = Vec::new();
    pairs.push(("metadata".to_owned(), metadata_to_ipld(&content.metadata)));
    pairs.push(("content".to_owned(), build(Parts::Bytes(copy_bytes(&content.content)))));
    assert(crate::ipld::given_fields(pairs@) =~= file_fields(content@));
    build(Parts::Fields(pairs))
}

/// Writes the content of a directory.
fn directory_to_ipld(content: &PrivateDirectoryContent) -> (ipld: Result<Ipld, NodeError>)
    ensures
        match content_written(ContentView::Dir(content@)) {
            Some(value) => ipld matches Ok(ipld) && crate::ipld::ipld_view(ipld) == value,
            None => ipld matches Err(error) && error@ == NodeErrorView::ExpectEncryptedRatchetKey,
        },
{
    match entries_to_ipld(&content.entries) {
        Ok(entries) => {
            let ghost written = crate::ipld::ipld_view(entries);
            proof {
                lemma_names_differ();
                lemma_two_fields(directory_fields(content.metadata, written), 3);
            }
            let mut pairs: Vec<(String, Ipld)> = Vec::new();
            pairs.push(("metadata".to_owned(), metadata_to_ipld(&content.metadata)));
            pairs.push(("entries".to_owned(), entries));
            assert(crate::ipld::given_fields(pairs@) =~= directory_fields(
                content.metadata,
                written,
            ));
            Ok(build(Parts::Fields(pairs)))
        },
        Err(error) => Err(error),
    }
}

/// The value that bytes hold, or `None` where they hold none.
pub open spec fn value_read(bytes: Seq<u8>) -> Option<IpldView> {
    if crate::framing::fits(bytes) {
        crate::ipld::cbor_read(bytes)
    } else {
        None
    }
}

/// Reads a value from bytes.
fn read_value(bytes: &[u8]) -> (ipld: Result<Ipld, NodeError>)
    ensures
        match value_read(bytes@) {
            Some(value) => ipld matches Ok(ipld) && crate::ipld::ipld_view(ipld) == value,
            None => ipld matches Err(error) && error@ == NodeErrorView::InvalidCbor,
        },
{
    if !check(bytes) {
        return Err(NodeError::InvalidCbor);
    }
    match decode(bytes) {
        Ok(ipld) => Ok(ipld),
        Err(_) => Err(NodeError::InvalidCbor),
    }
}

/// Writes a value of ours.
fn write_value(ipld: &Ipld) -> (bytes: Result<Vec<u8>, NodeError>)
    requires
        crate::ipld::is_plain(crate::ipld::ipld_view(*ipld), 4),
    ensures
        bytes matches Ok(bytes) && crate::ipld::cbor_written(crate::ipld::ipld_view(*ipld))
            == Some(bytes@) && value_read(bytes@) == Some(crate::ipld::ipld_view(*ipld)),
{
    assert(crate::ipld::is_lossless(crate::ipld::ipld_view(*ipld)));
    match encode(ipld) {
        Ok(bytes) => Ok(bytes),
        Err(_) => Err(NodeError::InvalidCbor),
    }
}

/// The header that bytes hold, where there are any.
pub open spec fn stored_header_read(header_bytes: Option<Seq<u8>>) -> Result<
    Option<PrivateNodeHeaderView>,
    NodeErrorView,
> {
    match header_bytes {
        None => Ok(None),
        Some(bytes) => match value_read(bytes) {
            Some(value) => match header_read(value) {
                Some(header) => Ok(Some(header)),
                None => Err(NodeErrorView::InvalidHeader),
            },
            None => Err(NodeErrorView::InvalidCbor),
        },
    }
}

/// The node that bytes hold.
pub open spec fn node_read(header_bytes: Option<Seq<u8>>, content_bytes: Seq<u8>) -> Result<
    HeldNodeView,
    NodeErrorView,
> {
    match stored_header_read(header_bytes) {
        Ok(header) => match value_read(content_bytes) {
            Some(value) => match content_read(value) {
                Ok(content) => Ok(HeldNodeView { header, content }),
                Err(error) => Err(error),
            },
            None => Err(NodeErrorView::InvalidCbor),
        },
        Err(error) => Err(error),
    }
}

/// The header of a node as an IPLD value. One that is not known is null.
pub open spec fn held_header_written(header: Option<PrivateNodeHeaderView>) -> IpldView {
    match header {
        Some(header) => header_written(header),
        None => IpldView::Null,
    }
}

/// The bytes of a list of bytes that may be missing.
pub open spec fn optional_bytes(bytes: Option<Vec<u8>>) -> Option<Seq<u8>> {
    match bytes {
        Some(bytes) => Some(bytes@),
        None => None,
    }
}

impl PrivateNode<Option<PrivateNodeHeader>> {
    /// Gives the header of the node, if it is known.
    pub fn header(&self) -> (header: &Option<PrivateNodeHeader>)
        ensures
            held_header(*header) == self@.header,
    {
        match self {
            PrivateNode::File(file) => &file.header,
            PrivateNode::Dir(dir) => &dir.header,
        }
    }

    /// Writes the header of the node. One that is not known is null.
    pub fn serialize_header(&self) -> (ipld: Ipld)
        ensures
            crate::ipld::ipld_view(ipld) == held_header_written(self@.header),
            crate::ipld::is_plain(crate::ipld::ipld_view(ipld), 4),
            self@.header matches Some(header) ==> header_read(crate::ipld::ipld_view(ipld)) == Some(
                header,
            ),
    {
        match self.header() {
            Some(header) => {
                let ipld = header_to_ipld(header);
                proof {
                    lemma_deeper(crate::ipld::ipld_view(ipld), 3, 4);
                }
                ipld
            },
            None => build(Parts::Null),
        }
    }

    /// Writes the content of the node. A ratchet key in a directory has to be encrypted.
    pub fn serialize_content(&self) -> (ipld: Result<Ipld, NodeError>)
        ensures
            match content_written(self@.content) {
                Some(value) => ipld matches Ok(ipld) && crate::ipld::ipld_view(ipld) == value,
                None => ipld matches Err(error) && error@
                    == NodeErrorView::ExpectEncryptedRatchetKey,
            },
    {
        match self {
            PrivateNode::File(file) => Ok(file_to_ipld(&file.content)),
            PrivateNode::Dir(dir) => directory_to_ipld(&dir.content),
        }
    }

    /// Gives the bytes that are stored of the node: those of its header and those of its
    /// content. A ratchet key in a directory has to be encrypted.
    pub fn serialize_as_cbor(&self) -> (bytes: Result<(Vec<u8>, Vec<u8>), NodeError>)
        ensures
            match content_written(self@.content) {
                Some(content) => {
                    &&& bytes matches Ok((header_bytes, content_bytes))
                    &&& crate::ipld::cbor_written(held_header_written(self@.header)) == Some(
                        header_bytes@,
                    )
                    &&& crate::ipld::cbor_written(content) == Some(content_bytes@)
                    &&& is_stored_as(self@, header_bytes@, content_bytes@)
                },
                None => bytes matches Err(error) && error@
                    == NodeErrorView::ExpectEncryptedRatchetKey,
            },
    {
        let header_ipld = self.serialize_header();
        let content_ipld = match self.serialize_content() {
            Ok(ipld) => ipld,
            Err(error) => {
                return Err(error);
            },
        };
        proof {
            assert(has_digests(self@.content)) by {
                match self {
                    PrivateNode::File(_) => {},
                    PrivateNode::Dir(dir) => {
                        dir.content.entries.lemma_digests();
                    },
                }
            }
            lemma_content(self@.content);
        }
        let header_bytes = match write_value(&header_ipld) {
            Ok(bytes) => bytes,
            Err(error) => {
                return Err(error);
            },
        };
        let content_bytes = match write_value(&content_ipld) {
            Ok(bytes) => bytes,
            Err(error) => {
                return Err(error);
            },
        };
        Ok((header_bytes, content_bytes))
    }

    /// Reads a node from the bytes that were stored of it. Without those of its header, the
    /// header is not known.
    ///
    /// Fields of the content that a node does not have are ignored, whatever they hold and however
    /// deep it is nested.
    pub fn deserialize_from_cbor(header_bytes: &Option<Vec<u8>>, content_bytes: &[u8]) -> (node:
        Result<Self, NodeError>)
        ensures
            match node_read(optional_bytes(*header_bytes), content_bytes@) {
                Ok(held) => node matches Ok(node) && node@ == held,
                Err(error) => node matches Err(node) && node@ == error,
            },
    {
        let header = match header_bytes {
            Some(bytes) => match read_value(bytes.as_slice()) {
                Ok(ipld) => match header_from_ipld(&ipld) {
                    Some(header) => Some(header),
                    None => {
                        return Err(NodeError::InvalidHeader);
                    },
                },
                Err(error) => {
                    return Err(error);
                },
            },
            None => None,
        };
        match read_value(content_bytes) {
            Ok(ipld) => Self::deserialize_content(ipld, header),
            Err(error) => Err(error),
        }
    }

    /// Reads a node from the value that its content was written as.
    pub fn deserialize_content(content_ipld: Ipld, header: Option<PrivateNodeHeader>) -> (node:
        Result<Self, NodeError>)
        ensures
            match content_read(crate::ipld::ipld_view(content_ipld)) {
                Ok(content) => node matches Ok(node) && node@ == (HeldNodeView {
                    header: held_header(header),
                    content,
                }),
                Err(error) => node matches Err(node) && node@ == error,
            },
    {
        match shape(&content_ipld) {
            Shape::Fields(map) => {
                let metadata = match find_field(&map, "metadata") {
                    Some(metadata_ipld) => match metadata_from_ipld(metadata_ipld) {
                        Some(metadata) => metadata,
                        None => {
                            return Err(NodeError::InvalidMetadata);
                        },
                    },
                    None => {
                        return Err(NodeError::MissingMetadataField);
                    },
                };
                if metadata.is_file() {
                    let content = match find_field(&map, "content") {
                        Some(content) => bytes_from_ipld(content),
                        None => None,
                    };
                    match content {
                        Some(content) => Ok(
                            PrivateNode::from(
                                PrivateFile {
                                    header,
                                    content: PrivateFileContent { metadata, content },
                                },
                            ),
                        ),
                        None => Err(NodeError::InvalidContent),
                    }
                } else {
                    let entries = match find_field(&map, "entries") {
                        Some(entries) => entries_from_ipld(entries),
                        None => None,
                    };
                    match entries {
                        Some(entries) => Ok(
                            PrivateNode::from(
                                PrivateDirectory {
                                    header,
                                    content: PrivateDirectoryContent { metadata, entries },
                                },
                            ),
                        ),
                        None => Err(NodeError::InvalidContent),
                    }
                }
            },
            _ => {
                let mut text = "Expected `Ipld::Map` got ".to_owned();
                let other = describe(&content_ipld);
                text.append(other.as_str());
                Err(NodeError::InvalidDeserialization(text))
            },
        }
    }
}

/// Whether bytes hold what is stored of a node: its header, and its content.
pub open spec fn is_stored_as(
    node: HeldNodeView,
    header_bytes: Seq<u8>,
    content_bytes: Seq<u8>,
) -> bool {
    &&& has_digests(node.content)
    &&& value_read(header_bytes) == Some(held_header_written(node.header))
    &&& node.header matches Some(header) ==> header_read(header_written(header)) == Some(header)
    &&& value_read(content_bytes) == content_written(node.content)
}

/// A node that was stored is read as it was, but for the bare form of its ratchet keys, which is
/// not stored. Without the bytes of its header, the header is not known.
pub proof fn law_stored_node_comes_back(
    node: HeldNodeView,
    header_bytes: Seq<u8>,
    content_bytes: Seq<u8>,
)
    requires
        content_written(node.content) is Some,
        is_stored_as(node, header_bytes, content_bytes),
        is_of_its_kind(node.content),
    ensures
        node.header is Some ==> node_read(Some(header_bytes), content_bytes) == Ok::<
            _,
            NodeErrorView,
        >(HeldNodeView { header: node.header, content: content_stored(node.content) }),
        node_read(None, content_bytes) == Ok::<_, NodeErrorView>(
            HeldNodeView { header: None, content: content_stored(node.content) },
        ),
{
    lemma_content(node.content);
}

/// Whether a value has a field with this in it.
pub open spec fn holds(value: IpldView, name: Seq<char>, inner: IpldView) -> bool {
    value matches IpldView::Fields(fields) && fields.contains_key(name) && fields[name] == inner
}

/// A field is read where it is.
proof fn lemma_holds(value: IpldView, name: Seq<char>)
    ensures
        forall|inner: IpldView| #[trigger]
            holds(value, name, inner) <==> field(value, name) == Some(inner),
{
}

/// Metadata is read field by field: the two times are numbers, and the kind is a text.
pub proof fn law_metadata_is_read_field_by_field(
    value: IpldView,
    unix_fs: IpldView,
    metadata: Metadata,
)
    requires
        holds(value, "unix_fs"@, unix_fs),
    ensures
        metadata_read(value) == Some(metadata) <==> {
            &&& holds(
                unix_fs,
                "created"@,
                IpldView::Integer(metadata.unix_fs.created as int),
            )
            &&& holds(
                unix_fs,
                "modified"@,
                IpldView::Integer(metadata.unix_fs.modified as int),
            )
            &&& holds(
                unix_fs,
                "kind"@,
                IpldView::Text(
                    match metadata.unix_fs.kind {
                        UnixFsNodeKind::File => "File"@,
                        UnixFsNodeKind::Dir => "Dir"@,
                    },
                ),
            )
        },
{
    lemma_names_differ();
}

/// Where a value has no field for the metadata of a node, it is no metadata.
pub proof fn law_metadata_needs_its_field(value: IpldView)
    requires
        forall|unix_fs: IpldView| !holds(value, "unix_fs"@, unix_fs),
    ensures
        metadata_read(value) is None,
{
    match field(value, "unix_fs"@) {
        Some(unix_fs) => {
            assert(holds(value, "unix_fs"@, unix_fs));
        },
        None => {},
    }
}

/// Whether a value is the bytes, or a list of the numbers of the bytes.
pub open spec fn are_the_bytes(value: IpldView, bytes: Seq<u8>) -> bool {
    ||| value == IpldView::Bytes(bytes)
    ||| value matches IpldView::List(list) && list.len() == bytes.len() && forall|i: int|
        0 <= i < list.len() ==> #[trigger] list[i] == IpldView::Integer(bytes[i] as int)
}

/// Bytes are read from bytes and from a list of numbers.
pub proof fn law_bytes_are_read_one_by_one(value: IpldView, bytes: Seq<u8>)
    ensures
        bytes_read(value) == Some(bytes) <==> are_the_bytes(value, bytes),
{
    match value {
        IpldView::List(list) => {
            if are_the_bytes(value, bytes) {
                assert forall|i: int| 0 <= i < list.len() implies is_byte(#[trigger] list[i]) by {
                    assert(list[i] == IpldView::Integer(bytes[i] as int));
                }
                assert(bytes_read(value)->0 =~= bytes);
            }
            if bytes_read(value) == Some(bytes) {
                assert forall|i: int| 0 <= i < list.len() implies #[trigger] list[i]
                    == IpldView::Integer(bytes[i] as int) by {
                    assert(is_byte(list[i]));
                }
            }
        },
        _ => {},
    }
}

/// A reference is read field by field: two digests, each a list of numbers, and a ratchet key that
/// may be missing. Of a key that is read only the encrypted form is known.
pub proof fn law_reference_is_read_field_by_field(value: IpldView, private_ref: PrivateRefView)
    requires
        ref_read(value) == Some(private_ref),
    ensures
        private_ref.saturated_name_hash.len() == HASH_BYTE_SIZE,
        private_ref.content_key.len() == HASH_BYTE_SIZE,
        exists|inner: IpldView| #[trigger]
            holds(value, "saturated_name_hash"@, inner) && inner is List && are_the_bytes(
                inner,
                private_ref.saturated_name_hash,
            ),
        exists|inner: IpldView| #[trigger]
            holds(value, "content_key"@, inner) && inner is List && are_the_bytes(
                inner,
                private_ref.content_key,
            ),
        match private_ref.ratchet_key {
            Some(RatchetKeyView::Bare(_)) => false,
            Some(RatchetKeyView::Encrypted { encrypted, bare }) => bare is None && exists|
                inner: IpldView,
            | #[trigger]
                holds(value, "ratchet_key"@, inner) && are_the_bytes(inner, encrypted),
            None => forall|inner: IpldView| #[trigger]
                holds(value, "ratchet_key"@, inner) ==> inner is Null,
        },
{
    lemma_holds(value, "saturated_name_hash"@);
    lemma_holds(value, "content_key"@);
    lemma_holds(value, "ratchet_key"@);
    let first = field(value, "saturated_name_hash"@)->0;
    law_bytes_are_read_one_by_one(first, private_ref.saturated_name_hash);
    assert(holds(value, "saturated_name_hash"@, first));
    let second = field(value, "content_key"@)->0;
    law_bytes_are_read_one_by_one(second, private_ref.content_key);
    assert(holds(value, "content_key"@, second));
    match private_ref.ratchet_key {
        Some(RatchetKeyView::Encrypted { encrypted, .. }) => {
            let third = field(value, "ratchet_key"@)->0;
            law_bytes_are_read_one_by_one(third, encrypted);
            assert(holds(value, "ratchet_key"@, third));
        },
        _ => {},
    }
}

/// The content of a node is read from a map. Its metadata says of which kind it is and comes back
/// as it is written there. A file has its bytes in one field, a directory its entries in another,
/// each under its name. Without a map, without metadata or without content the error says so.
pub proof fn law_content_is_read_field_by_field(value: IpldView)
    ensures
        match content_read(value) {
            Ok(ContentView::File(file)) => {
                &&& file.metadata.unix_fs.kind == UnixFsNodeKind::File
                &&& exists|inner: IpldView| #[trigger]
                    holds(value, "metadata"@, inner) && metadata_read(inner) == Some(file.metadata)
                &&& exists|inner: IpldView| #[trigger]
                    holds(value, "content"@, inner) && are_the_bytes(inner, file.content)
            },
            Ok(ContentView::Dir(dir)) => {
                &&& dir.metadata.unix_fs.kind == UnixFsNodeKind::Dir
                &&& exists|inner: IpldView| #[trigger]
                    holds(value, "metadata"@, inner) && metadata_read(inner) == Some(dir.metadata)
                &&& exists|inner: IpldView| #[trigger]
                    holds(value, "entries"@, inner) && (inner matches IpldView::Fields(fields)
                        && forall|name: Seq<char>| #[trigger]
                        dir.entries.contains_key(name) == fields.contains_key(name) && (
                        fields.contains_key(name) ==> ref_read(fields[name]) == Some(
                            dir.entries[name],
                        )))
            },
            Err(NodeErrorView::InvalidDeserialization(text)) => value !is Fields && text
                == "Expected `Ipld::Map` got "@ + crate::ipld::ipld_debug(value),
            Err(NodeErrorView::MissingMetadataField) => value is Fields && forall|inner: IpldView|
                !#[trigger] holds(value, "metadata"@, inner),
            Err(NodeErrorView::InvalidMetadata) => exists|inner: IpldView| #[trigger]
                holds(value, "metadata"@, inner) && metadata_read(inner) is None,
            Err(NodeErrorView::InvalidContent) => exists|inner: IpldView| #[trigger]
                holds(value, "metadata"@, inner) && (metadata_read(inner) matches Some(metadata)
                    && match metadata.unix_fs.kind {
                    UnixFsNodeKind::File => forall|content: IpldView, bytes: Seq<u8>|
                        #![trigger holds(value, "content"@, content), are_the_bytes(content, bytes)]
                        !(holds(value, "content"@, content) && are_the_bytes(content, bytes)),
                    UnixFsNodeKind::Dir => forall|entries: IpldView|
                        !(#[trigger] holds(value, "entries"@, entries) && (
                        entries matches IpldView::Fields(fields) && forall|name: Seq<char>|
                            #[trigger]
                            fields.contains_key(name) ==> ref_read(fields[name]) is Some)),
                }),
            Err(_) => false,
        },
{
    lemma_holds(value, "metadata"@);
    lemma_holds(value, "content"@);
    lemma_holds(value, "entries"@);
    match field(value, "metadata"@) {
        Some(inner) => {
            assert(holds(value, "metadata"@, inner));
        },
        None => {},
    }
    match field(value, "content"@) {
        Some(inner) => {
            assert(holds(value, "content"@, inner));
            assert forall|bytes: Seq<u8>| bytes_read(inner) == Some(bytes)
                <==> #[trigger] are_the_bytes(inner, bytes) by {
                law_bytes_are_read_one_by_one(inner, bytes);
            }
        },
        None => {},
    }
    match field(value, "entries"@) {
        Some(inner) => {
            assert(holds(value, "entries"@, inner));
        },
        None => {},
    }
}

/// A reference is read from every value that has two digests and, if it has one, a ratchet key in
/// bytes.
pub proof fn law_reference_is_read_where_its_fields_are(
    value: IpldView,
    first: IpldView,
    second: IpldView,
    name_hash: Seq<u8>,
    content_key: Seq<u8>,
)
    requires
        holds(value, "saturated_name_hash"@, first),
        first is List,
        are_the_bytes(first, name_hash),
        name_hash.len() == HASH_BYTE_SIZE,
        holds(value, "content_key"@, second),
        second is List,
        are_the_bytes(second, content_key),
        content_key.len() == HASH_BYTE_SIZE,
        forall|third: IpldView| #[trigger]
            holds(value, "ratchet_key"@, third) ==> third is Null || exists|bytes: Seq<u8>|
                are_the_bytes(third, bytes),
    ensures
        ref_read(value) matches Some(private_ref) && private_ref.saturated_name_hash == name_hash
            && private_ref.content_key == content_key,
{
    lemma_holds(value, "saturated_name_hash"@);
    lemma_holds(value, "content_key"@);
    lemma_holds(value, "ratchet_key"@);
    law_bytes_are_read_one_by_one(first, name_hash);
    law_bytes_are_read_one_by_one(second, content_key);
    match field(value, "ratchet_key"@) {
        Some(third) => {
            assert(holds(value, "ratchet_key"@, third));
            if third !is Null {
                let bytes = choose|bytes: Seq<u8>| are_the_bytes(third, bytes);
                law_bytes_are_read_one_by_one(third, bytes);
            }
        },
        None => {},
    }
}

/// Whether a digest is written as a list of its bytes.
pub open spec fn is_list_of(value: IpldView, bytes: Seq<u8>) -> bool {
    value matches IpldView::List(list) && list.len() == bytes.len() && forall|i: int|
        0 <= i < list.len() ==> #[trigger] list[i] == IpldView::Integer(bytes[i] as int)
}

/// The fields of three pairs, and no others.
proof fn lemma_only_three(pairs: Seq<(Seq<char>, IpldView)>)
    requires
        pairs.len() == 3,
        pairs[0].0 != pairs[1].0,
        pairs[0].0 != pairs[2].0,
        pairs[1].0 != pairs[2].0,
    ensures
        ({
            let value = IpldView::Fields(crate::ipld::fields_of(pairs));
            &&& holds(value, pairs[0].0, pairs[0].1)
            &&& holds(value, pairs[1].0, pairs[1].1)
            &&& holds(value, pairs[2].0, pairs[2].1)
            &&& forall|name: Seq<char>| #[trigger]
                crate::ipld::fields_of(pairs).contains_key(name) ==> name == pairs[0].0 || name
                    == pairs[1].0 || name == pairs[2].0
        }),
{
    lemma_three_fields(pairs, 0);
    assert forall|name: Seq<char>| #[trigger]
        crate::ipld::fields_of(pairs).contains_key(name) implies name == pairs[0].0 || name
        == pairs[1].0 || name == pairs[2].0 by {
        let at = lemma_field_somewhere(pairs, name);
    }
}

/// The fields of two pairs, and no others.
proof fn lemma_only_two(pairs: Seq<(Seq<char>, IpldView)>)
    requires
        pairs.len() == 2,
        pairs[0].0 != pairs[1].0,
    ensures
        ({
            let value = IpldView::Fields(crate::ipld::fields_of(pairs));
            &&& holds(value, pairs[0].0, pairs[0].1)
            &&& holds(value, pairs[1].0, pairs[1].1)
            &&& forall|name: Seq<char>| #[trigger]
                crate::ipld::fields_of(pairs).contains_key(name) ==> name == pairs[0].0 || name
                    == pairs[1].0
        }),
{
    lemma_two_fields(pairs, 0);
    assert forall|name: Seq<char>| #[trigger]
        crate::ipld::fields_of(pairs).contains_key(name) implies name == pairs[0].0 || name
        == pairs[1].0 by {
        let at = lemma_field_somewhere(pairs, name);
    }
}

/// Metadata is written as a map with a map in it, which holds the two times as numbers and the
/// kind as a text, and nothing else.
pub proof fn law_metadata_is_written_field_by_field(metadata: Metadata)
    ensures
        metadata_written(metadata) matches IpldView::Fields(outer) && {
            &&& forall|name: Seq<char>| #[trigger] outer.contains_key(name) <==> name == "unix_fs"@
            &&& outer["unix_fs"@] matches IpldView::Fields(inner)
            &&& forall|name: Seq<char>| #[trigger]
                inner.contains_key(name) <==> name == "created"@ || name == "modified"@ || name
                    == "kind"@
            &&& inner["created"@] == IpldView::Integer(metadata.unix_fs.created as int)
            &&& inner["modified"@] == IpldView::Integer(metadata.unix_fs.modified as int)
            &&& inner["kind"@] == IpldView::Text(
                match metadata.unix_fs.kind {
                    UnixFsNodeKind::File => "File"@,
                    UnixFsNodeKind::Dir => "Dir"@,
                },
            )
        },
{
    lemma_names_differ();
    lemma_only_three(unix_fs_fields(metadata.unix_fs));
    let outer = seq![("unix_fs"@, unix_fs_written(metadata.unix_fs))];
    assert(crate::ipld::distinct_names(outer));
    lemma_fields_distinct(outer, 0);
    assert(outer[0] == ("unix_fs"@, unix_fs_written(metadata.unix_fs)));
    assert forall|name: Seq<char>| #[trigger]
        crate::ipld::fields_of(outer).contains_key(name) implies name == "unix_fs"@ by {
        let at = lemma_field_somewhere(outer, name);
    }
}

/// The content of a file is written as a map of its metadata and its bytes, and nothing else. It
/// can always be written.
pub proof fn law_file_is_written_field_by_field(file: PrivateFileContentView)
    ensures
        content_written(ContentView::File(file)) matches Some(IpldView::Fields(fields)) && {
            &&& forall|name: Seq<char>| #[trigger]
                fields.contains_key(name) <==> name == "metadata"@ || name == "content"@
            &&& fields["metadata"@] == metadata_written(file.metadata)
            &&& fields["content"@] == IpldView::Bytes(file.content)
        },
{
    lemma_names_differ();
    lemma_only_two(file_fields(file));
}

/// The content of a directory is written as a map of its metadata and its entries, and nothing
/// else. Under each name of the directory stands its reference, and under no other: two digests as
/// lists of numbers, and the encrypted form of the ratchet key, or null. It can be written exactly
/// if no ratchet key is known in its bare form alone.
pub proof fn law_directory_is_written_field_by_field(dir: PrivateDirectoryContentView)
    ensures
        content_written(ContentView::Dir(dir)) is Some <==> forall|name: Seq<char>| #[trigger]
            dir.entries.contains_key(name) ==> !(dir.entries[name].ratchet_key matches Some(
                RatchetKeyView::Bare(_),
            )),
        content_written(ContentView::Dir(dir)) matches Some(value)
            ==> value matches IpldView::Fields(fields) && {
            &&& forall|name: Seq<char>| #[trigger]
                fields.contains_key(name) <==> name == "metadata"@ || name == "entries"@
            &&& fields["metadata"@] == metadata_written(dir.metadata)
            &&& fields["entries"@] matches IpldView::Fields(entries)
            &&& forall|name: Seq<char>| #[trigger]
                entries.contains_key(name) <==> dir.entries.contains_key(name)
            &&& forall|name: Seq<char>| #[trigger]
                dir.entries.contains_key(name) ==> is_ref_value(entries[name], dir.entries[name])
        },
{
    lemma_names_differ();
    assert forall|name: Seq<char>| #[trigger] dir.entries.contains_key(name) implies ref_written(
        dir.entries[name],
    ) is Some <==> !(dir.entries[name].ratchet_key matches Some(RatchetKeyView::Bare(_))) by {}
    if content_written(ContentView::Dir(dir)) is Some {
        let written = entries_written(dir.entries)->0;
        lemma_only_two(directory_fields(dir.metadata, written));
        let entries = written->Fields_0;
        assert forall|name: Seq<char>| #[trigger]
            dir.entries.contains_key(name) implies is_ref_value(
            entries[name],
            dir.entries[name],
        ) by {
            let private_ref = dir.entries[name];
            let key = key_written(private_ref.ratchet_key)->0;
            assert(entries.contains_key(name));
            lemma_only_three(ref_fields(private_ref, key));
        }
    }
}

/// Whether a value is what a reference is written as.
pub open spec fn is_ref_value(value: IpldView, private_ref: PrivateRefView) -> bool {
    value matches IpldView::Fields(fields) && {
        &&& forall|name: Seq<char>| #[trigger]
            fields.contains_key(name) <==> name == "saturated_name_hash"@ || name == "content_key"@
                || name == "ratchet_key"@
        &&& is_list_of(fields["saturated_name_hash"@], private_ref.saturated_name_hash)
        &&& is_list_of(fields["content_key"@], private_ref.content_key)
        &&& match private_ref.ratchet_key {
            Some(RatchetKeyView::Encrypted { encrypted, .. }) => fields["ratchet_key"@]
                == IpldView::Bytes(encrypted),
            Some(RatchetKeyView::Bare(_)) => false,
            None => fields["ratchet_key"@] == IpldView::Null,
        }
    }
}

/// A header is written as a map of its name, its ratchet and its inumber, and nothing else. The
/// name is a list of its elements.
pub proof fn law_header_is_written_field_by_field(header: PrivateNodeHeaderView)
    ensures
        header_written(header) matches IpldView::Fields(fields) && {
            &&& forall|name: Seq<char>| #[trigger]
                fields.contains_key(name) <==> name == "bare_name"@ || name == "ratchet"@ || name
                    == "inumber"@
            &&& fields["ratchet"@] == crate::ratchet::ratchet_written(header.ratchet)
            &&& is_list_of(fields["inumber"@], header.inumber)
            &&& fields["bare_name"@] matches IpldView::List(list)
            &&& list.len() == header.bare_name.len()
            &&& forall|i: int|
                0 <= i < list.len() ==> is_list_of(#[trigger] list[i], header.bare_name[i])
        },
{
    lemma_names_differ();
    lemma_only_three(header_fields(header));
}

/// A file that was stored is a file with the same bytes, the same times and the same kind when it
/// is read again, and has the same header if the bytes of the header are there.
pub proof fn law_stored_file_comes_back_field_by_field(
    node: HeldNodeView,
    file: PrivateFileContentView,
    header_bytes: Seq<u8>,
    content_bytes: Seq<u8>,
    with_header: bool,
)
    requires
        is_stored_as(node, header_bytes, content_bytes),
        node.content == ContentView::File(file),
        file.metadata.unix_fs.kind == UnixFsNodeKind::File,
        with_header ==> node.header is Some,
    ensures
        ({
            let given = if with_header {
                Some(header_bytes)
            } else {
                None
            };
            &&& node_read(given, content_bytes) matches Ok(read)
            &&& read.content matches ContentView::File(back)
            &&& back.content == file.content
            &&& back.metadata.unix_fs.created == file.metadata.unix_fs.created
            &&& back.metadata.unix_fs.modified == file.metadata.unix_fs.modified
            &&& back.metadata.unix_fs.kind == UnixFsNodeKind::File
            &&& if with_header {
                &&& read.header matches Some(header)
                &&& header.bare_name == node.header->0.bare_name
                &&& header.inumber == node.header->0.inumber
                &&& header.ratchet == node.header->0.ratchet
            } else {
                read.header is None
            }
        }),
{
    law_stored_node_comes_back(node, header_bytes, content_bytes);
}

/// A directory that was stored is a directory with the same times and the same names when it is
/// read again, and has the same header if the bytes of the header are there. Each name leads to
/// the same place, and of a ratchet key the encrypted form comes back.
pub proof fn law_stored_directory_comes_back_field_by_field(
    node: HeldNodeView,
    dir: PrivateDirectoryContentView,
    header_bytes: Seq<u8>,
    content_bytes: Seq<u8>,
    with_header: bool,
)
    requires
        is_stored_as(node, header_bytes, content_bytes),
        node.content == ContentView::Dir(dir),
        dir.metadata.unix_fs.kind == UnixFsNodeKind::Dir,
        forall|name: Seq<char>| #[trigger]
            dir.entries.contains_key(name) ==> !(dir.entries[name].ratchet_key matches Some(
                RatchetKeyView::Bare(_),
            )),
        with_header ==> node.header is Some,
    ensures
        ({
            let given = if with_header {
                Some(header_bytes)
            } else {
                None
            };
            &&& node_read(given, content_bytes) matches Ok(read)
            &&& read.content matches ContentView::Dir(back)
            &&& back.metadata.unix_fs.created == dir.metadata.unix_fs.created
            &&& back.metadata.unix_fs.modified == dir.metadata.unix_fs.modified
            &&& back.metadata.unix_fs.kind == UnixFsNodeKind::Dir
            &&& forall|name: Seq<char>| #[trigger]
                back.entries.contains_key(name) <==> dir.entries.contains_key(name)
            &&& forall|name: Seq<char>| #[trigger]
                dir.entries.contains_key(name) ==> {
                    let read_ref = back.entries[name];
                    let stored_ref = dir.entries[name];
                    &&& read_ref.saturated_name_hash == stored_ref.saturated_name_hash
                    &&& read_ref.content_key == stored_ref.content_key
                    &&& match stored_ref.ratchet_key {
                        Some(RatchetKeyView::Encrypted { encrypted, .. }) => read_ref.ratchet_key
                            == Some(RatchetKeyView::Encrypted { encrypted, bare: None }),
                        _ => read_ref.ratchet_key is None,
                    }
                }
            &&& if with_header {
                &&& read.header matches Some(header)
                &&& header.bare_name == node.header->0.bare_name
                &&& header.inumber == node.header->0.inumber
                &&& header.ratchet == node.header->0.ratchet
            } else {
                read.header is None
            }
        }),
{
    law_directory_is_written_field_by_field(dir);
    law_stored_node_comes_back(node, header_bytes, content_bytes);
}

/// A digest is read from the list of its bytes, and from nothing else.
pub proof fn law_digest_is_read_from_the_list_of_its_bytes(value: IpldView, digest: Seq<u8>)
    ensures
        digest_read(value) == Some(digest) <==> is_list_of(value, digest) && digest.len()
            == HASH_BYTE_SIZE,
{
    law_bytes_are_read_one_by_one(value, digest);
}

/// A header is read field by field: a list of digests for its name, its ratchet, and a digest for
/// its inumber.
pub proof fn law_header_is_read_field_by_field(
    value: IpldView,
    name_value: IpldView,
    ratchet_value: IpldView,
    inumber_value: IpldView,
    header: PrivateNodeHeaderView,
)
    requires
        holds(value, "bare_name"@, name_value),
        holds(value, "ratchet"@, ratchet_value),
        holds(value, "inumber"@, inumber_value),
    ensures
        header_read(value) == Some(header) <==> {
            &&& crate::ratchet::ratchet_read(ratchet_value) == Some(header.ratchet)
            &&& is_list_of(inumber_value, header.inumber)
            &&& header.inumber.len() == HASH_BYTE_SIZE
            &&& name_value matches IpldView::List(list)
            &&& list.len() == header.bare_name.len()
            &&& forall|i: int|
                0 <= i < list.len() ==> is_list_of(#[trigger] list[i], header.bare_name[i])
                    && header.bare_name[i].len() == HASH_BYTE_SIZE
        },
{
    law_digest_is_read_from_the_list_of_its_bytes(inumber_value, header.inumber);
    match name_value {
        IpldView::List(list) => {
            assert forall|i: int| 0 <= i < list.len() implies digest_read(#[trigger] list[i])
                == Some(header.bare_name[i]) <==> is_list_of(list[i], header.bare_name[i])
                && header.bare_name[i].len() == HASH_BYTE_SIZE by {
                law_digest_is_read_from_the_list_of_its_bytes(list[i], header.bare_name[i]);
            }
            if list.len() == header.bare_name.len() && forall|i: int|
                0 <= i < list.len() ==> is_list_of(#[trigger] list[i], header.bare_name[i])
                    && header.bare_name[i].len() == HASH_BYTE_SIZE {
                assert(name_read(name_value)->0 =~= header.bare_name);
            }
            if name_read(name_value) == Some(header.bare_name) {
                assert forall|i: int| 0 <= i < list.len() implies is_list_of(
                    #[trigger] list[i],
                    header.bare_name[i],
                ) && header.bare_name[i].len() == HASH_BYTE_SIZE by {
                    assert(digest_read(list[i]) is Some);
                    assert(name_read(name_value)->0[i] == digest_read(list[i])->0);
                }
            }
        },
        _ => {},
    }
}

/// A value that lacks a field of a header is none.
pub proof fn law_header_needs_its_fields(value: IpldView)
    requires
        (forall|inner: IpldView| !holds(value, "bare_name"@, inner)) || (forall|inner: IpldView|
            !holds(value, "ratchet"@, inner)) || (forall|inner: IpldView|
            !holds(value, "inumber"@, inner)),
    ensures
        header_read(value) is None,
{
    match value {
        IpldView::Fields(fields) => {
            assert(fields.contains_key("bare_name"@) ==> holds(
                value,
                "bare_name"@,
                fields["bare_name"@],
            ));
            assert(fields.contains_key("ratchet"@) ==> holds(
                value,
                "ratchet"@,
                fields["ratchet"@],
            ));
            assert(fields.contains_key("inumber"@) ==> holds(
                value,
                "inumber"@,
                fields["inumber"@],
            ));
        },
        _ => {},
    }
}

/// A node is read from the value of its header, if the bytes of one are given, and from the value
/// of its content. Bytes that hold no value, and a value that is no header, are errors, the
/// header's first.
pub proof fn law_node_is_read_from_its_header_and_its_content(
    header_bytes: Option<Seq<u8>>,
    content_bytes: Seq<u8>,
)
    ensures
        match header_bytes {
            Some(bytes) => match value_read(bytes) {
                None => node_read(header_bytes, content_bytes) == Err::<HeldNodeView, _>(
                    NodeErrorView::InvalidCbor,
                ),
                Some(value) => header_read(value) is None ==> node_read(header_bytes, content_bytes)
                    == Err::<HeldNodeView, _>(NodeErrorView::InvalidHeader),
            },
            None => true,
        },
        match node_read(header_bytes, content_bytes) {
            Ok(node) => {
                &&& value_read(content_bytes) matches Some(value)
                &&& content_read(value) == Ok::<_, NodeErrorView>(node.content)
                &&& match header_bytes {
                    Some(bytes) => node.header is Some && value_read(bytes) is Some && header_read(
                        value_read(bytes)->0,
                    ) == node.header,
                    None => node.header is None,
                }
            },
            Err(error) => {
                ||| header_bytes is Some && (value_read(header_bytes->0) is None || header_read(
                    value_read(header_bytes->0)->0,
                ) is None)
                ||| value_read(content_bytes) is None && error == NodeErrorView::InvalidCbor
                ||| value_read(content_bytes) is Some && content_read(value_read(content_bytes)->0)
                    == Err::<ContentView, _>(error)
            },
        },
        forall|bytes: Seq<u8>| #[trigger]
            value_read(bytes) == if crate::framing::fits(bytes) {
                crate::ipld::cbor_read(bytes)
            } else {
                None
            },
{
}

/// A header that is not known is written as null, which is no header.
pub proof fn law_unknown_header_is_null()
    ensures
        held_header_written(None) == IpldView::Null,
        header_read(IpldView::Null) is None,
{
}

} // verus!
