//! The errors that the library reports.

use vstd::prelude::*;

use crate::private::reference::Locator;

verus! {

/// What can go wrong while walking a hash array mapped trie.
#[derive(Clone, Copy, Debug, PartialEq, Eq, Structural)]
pub enum HamtError {
    /// The cursor is past the last nibble of the digest.
    CursorOutOfBounds,
}

/// What can go wrong in the file system.
#[derive(Clone, Copy, Debug, PartialEq, Eq)]
pub enum FsError {
    /// There is no node at the path.
    NotFound,
    /// The node at the path is not a file.
    NotAFile,
    /// The path does not lead to a place in a directory.
    InvalidPath,
    /// There is a directory where a file was to be written.
    DirectoryAlreadyExists,
    /// The bare form of a ratchet key is not known.
    ExpectBareRatchetKey,
    /// The encrypted form of a ratchet key is not known.
    ExpectEncryptedRatchetKey,
    /// The node at this place has to be fetched from the store first.
    NotLoaded(Locator),
}

/// What an `FsError` says.
pub enum FsErrorView {
    /// Any error but the next one.
    Plain(FsError),
    /// The node at this place has to be fetched from the store first.
    NotLoaded((Seq<u8>, Seq<u8>)),
}

impl View for FsError {
    type V = FsErrorView;

    open spec fn view(&self) -> FsErrorView {
        match self {
            FsError::NotLoaded(place) => FsErrorView::NotLoaded(place@),
            _ => FsErrorView::Plain(*self),
        }
    }
}

/// What can go wrong when a node is stored or read from what was stored.
#[derive(Debug, PartialEq, Eq)]
pub enum NodeError {
    /// The bytes are no DAG-CBOR.
    InvalidCbor,
    /// The value is no header.
    InvalidHeader,
    /// The content has no metadata.
    MissingMetadataField,
    /// The metadata of the content is not what it has to be.
    InvalidMetadata,
    /// The content is not that of a node of its kind.
    InvalidContent,
    /// The content is no map. The text says what it is.
    InvalidDeserialization(String),
    /// A ratchet key is known in its bare form alone, which is not stored.
    ExpectEncryptedRatchetKey,
}

/// What a `NodeError` says.
pub enum NodeErrorView {
    InvalidCbor,
    InvalidHeader,
    MissingMetadataField,
    InvalidMetadata,
    InvalidContent,
    InvalidDeserialization(Seq<char>),
    ExpectEncryptedRatchetKey,
}

impl View for NodeError {
    type V = NodeErrorView;

    open spec fn view(&self) -> NodeErrorView {
        match self {
            NodeError::InvalidCbor => NodeErrorView::InvalidCbor,
            NodeError::InvalidHeader => NodeErrorView::InvalidHeader,
            NodeError::MissingMetadataField => NodeErrorView::MissingMetadataField,
            NodeError::InvalidMetadata => NodeErrorView::InvalidMetadata,
            NodeError::InvalidContent => NodeErrorView::InvalidContent,
            NodeError::InvalidDeserialization(text) => NodeErrorView::InvalidDeserialization(
                text@,
            ),
            NodeError::ExpectEncryptedRatchetKey => NodeErrorView::ExpectEncryptedRatchetKey,
        }
    }
}

} // verus!
