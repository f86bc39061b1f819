//! What contracts see of a value: every field of it, as it is.

use std::rc::Rc;

use vstd::prelude::*;

use crate::common::HashOutput;
use crate::error::{FsError, FsErrorView, NodeError, NodeErrorView};
use crate::private::directory::PrivateDirectory;
use crate::private::encoding::ContentView;
use crate::private::metadata::Metadata;
use crate::private::name::{Name, NameAccumulator, NameSegment};
use crate::private::namefilter::Namefilter;
use crate::private::node::{PrivateFile, PrivateNode, PrivateNodeHeader, PrivateNodeView};
use crate::private::path::{PathNodes, PathNodesResult, PathNodesResultView};
use crate::private::reference::{Key, Locator, PrivateRef, RatchetKey, RatchetKeyView};

verus! {

/// The names on a path are those of its segments, in order.
pub proof fn law_path_has_the_names_of_its_segments(segments: Seq<String>, index: int)
    requires
        0 <= index < segments.len(),
    ensures
        crate::private::path::segment_names(segments).len() == segments.len(),
        crate::private::path::segment_names(segments)[index] == segments[index]@,
{
}

/// A listing has the names and the metadata that are in it, in order.
pub proof fn law_listing_has_the_items_in_it(list: Seq<(String, Metadata)>, index: int)
    requires
        0 <= index < list.len(),
    ensures
        crate::private::operations::listing(list).len() == list.len(),
        crate::private::operations::listing(list)[index].0 == list[index].0@,
        crate::private::operations::listing(list)[index].1 == list[index].1,
{
}

/// A pair of digests is an inumber and then the seed of a ratchet.
pub proof fn law_seed_is_its_two_digests(seeds: Seq<(HashOutput, HashOutput)>, index: int)
    requires
        0 <= index < seeds.len(),
    ensures
        crate::private::operations::seed_views(seeds).len() == seeds.len(),
        crate::private::operations::seed_views(seeds)[index].0 == seeds[index].0@,
        crate::private::operations::seed_views(seeds)[index].1 == seeds[index].1@,
{
}

/// A key, a segment, an accumulator and a place are seen byte by byte.
pub proof fn law_bytes_are_seen_as_they_are(
    key: Key,
    segment: NameSegment,
    accumulator: NameAccumulator,
    place: Locator,
)
    ensures
        key@ == key.0@,
        segment@ == segment.0@,
        accumulator@ == accumulator.0@,
        place@.0 == place.saturated_name_hash@,
        place@.1 == place.content_key.0@,
{
}

/// A name is seen with its accumulator and its segments, in order.
pub proof fn law_name_is_seen_segment_by_segment(name: Name, index: int)
    requires
        0 <= index < name.segments@.len(),
    ensures
        name@.relative_to == name.relative_to.0@,
        name@.segments.len() == name.segments@.len(),
        name@.segments[index] == name.segments@[index].0@,
{
}

/// The elements of a name that is missing are none.
pub proof fn law_missing_name_has_no_elements(name: Namefilter)
    ensures
        crate::private::node::name_or_empty(Some(name)) == name@,
        crate::private::node::name_or_empty(None) == Seq::<Seq<u8>>::empty(),
{
}

/// A header is seen with its name, its ratchet and its inumber.
pub proof fn law_header_is_seen_field_by_field(header: PrivateNodeHeader)
    ensures
        header@.bare_name == header.bare_name@,
        header@.ratchet == crate::ratchet::ratchet_state(header.ratchet),
        header@.inumber == header.inumber@,
{
}

/// A file is seen with its header, its metadata and its bytes.
pub proof fn law_file_is_seen_field_by_field(file: PrivateFile)
    ensures
        file@.header == file.header@,
        file@.content.metadata == file.content.metadata,
        file@.content.content == file.content.content@,
{
}

/// A directory is seen with its header, its metadata and its entries.
pub proof fn law_directory_is_seen_field_by_field(directory: PrivateDirectory)
    ensures
        directory@.header == directory.header@,
        directory@.content.metadata == directory.content.metadata,
        directory@.content.entries == directory.content.entries@,
{
}

/// A node is seen as the file or the directory that it is.
pub proof fn law_node_is_seen_as_what_it_is(
    file: Rc<PrivateFile>,
    directory: Rc<PrivateDirectory>,
    node: PrivateNode,
)
    ensures
        PrivateNode::File(file)@ == PrivateNodeView::File((*file)@),
        PrivateNode::Dir(directory)@ == PrivateNodeView::Dir((*directory)@),
        node@ is File <==> node is File,
{
}

/// The metadata of a node is that of its content.
pub proof fn law_metadata_of_a_node_is_that_of_its_content(node: PrivateNodeView)
    ensures
        match node {
            PrivateNodeView::File(file) => node.metadata() == file.content.metadata,
            PrivateNodeView::Dir(dir) => node.metadata() == dir.content.metadata,
        },
{
}

/// A node whose header may not be known is seen as the file or the directory that it is, with
/// all of its fields.
pub proof fn law_held_node_is_seen_as_what_it_is(
    file: Rc<PrivateFile<Option<PrivateNodeHeader>>>,
    directory: Rc<PrivateDirectory<Option<PrivateNodeHeader>>>,
)
    ensures
        ({
            let node = PrivateNode::File(file)@;
            &&& node.content matches ContentView::File(content)
            &&& content.metadata == file.content.metadata
            &&& content.content == file.content.content@
            &&& match file.header {
                Some(header) => node.header == Some(header@),
                None => node.header is None,
            }
        }),
        ({
            let node = PrivateNode::Dir(directory)@;
            &&& node.content matches ContentView::Dir(content)
            &&& content.metadata == directory.content.metadata
            &&& content.entries == directory.content.entries@
            &&& match directory.header {
                Some(header) => node.header == Some(header@),
                None => node.header is None,
            }
        }),
{
}

/// A ratchet key is seen in the forms that are known of it, and its bare key is the bare form.
pub proof fn law_ratchet_key_is_seen_in_its_forms(key: RatchetKey)
    ensures
        match key {
            RatchetKey::Bare(bare) => key@ == RatchetKeyView::Bare(bare.0@) && key@.bare_key()
                == Some(bare.0@),
            RatchetKey::Encrypted(both) => {
                &&& key@ matches RatchetKeyView::Encrypted { encrypted, bare }
                &&& encrypted == both.encrypted@
                &&& key@.bare_key() == bare
                &&& match both.bare {
                    Some(known) => bare == Some(known.0@),
                    None => bare is None,
                }
            },
        },
{
}

/// A reference is seen with its two digests and its ratchet key, if it has one. The two digests
/// are the place that it leads to.
pub proof fn law_reference_is_seen_field_by_field(private_ref: PrivateRef)
    ensures
        private_ref@.saturated_name_hash == private_ref.saturated_name_hash@,
        private_ref@.content_key == private_ref.content_key.0@,
        match private_ref.ratchet_key {
            Some(key) => private_ref@.ratchet_key == Some(key@),
            None => private_ref@.ratchet_key is None,
        },
        private_ref@.locator().0 == private_ref.saturated_name_hash@,
        private_ref@.locator().1 == private_ref.content_key.0@,
{
}

/// The directories on a path are seen in order, each with the name that leads on from it.
pub proof fn law_path_is_seen_step_by_step(nodes: PathNodes<PrivateDirectory>, index: int)
    requires
        0 <= index < nodes.path@.len(),
    ensures
        nodes@.path.len() == nodes.path@.len(),
        nodes@.path[index].0 == (*nodes.path@[index].0)@,
        nodes@.path[index].1 == nodes.path@[index].1@,
        nodes@.tail == (*nodes.tail)@,
{
}

/// How far a path leads is seen as it is.
pub proof fn law_walk_is_seen_as_what_it_is(nodes: PathNodes<PrivateDirectory>, name: String)
    ensures
        PathNodesResult::Complete(nodes)@ == PathNodesResultView::Complete(nodes@),
        PathNodesResult::MissingLink(nodes, name)@ == PathNodesResultView::MissingLink(
            nodes@,
            name@,
        ),
        PathNodesResult::NotADirectory(nodes, name)@ == PathNodesResultView::NotADirectory(
            nodes@,
            name@,
        ),
{
}

/// Errors are seen as what they are: none is taken for another.
pub proof fn law_errors_are_told_apart(error: FsError, place: Locator, text: String)
    ensures
        FsError::NotLoaded(place)@ == FsErrorView::NotLoaded(place@),
        error !is NotLoaded ==> error@ == FsErrorView::Plain(error),
        NodeError::InvalidCbor@ == NodeErrorView::InvalidCbor,
        NodeError::InvalidHeader@ == NodeErrorView::InvalidHeader,
        NodeError::MissingMetadataField@ == NodeErrorView::MissingMetadataField,
        NodeError::InvalidMetadata@ == NodeErrorView::InvalidMetadata,
        NodeError::InvalidContent@ == NodeErrorView::InvalidContent,
        NodeError::InvalidDeserialization(text)@ == NodeErrorView::InvalidDeserialization(text@),
        NodeError::ExpectEncryptedRatchetKey@ == NodeErrorView::ExpectEncryptedRatchetKey,
{
}

} // verus!
