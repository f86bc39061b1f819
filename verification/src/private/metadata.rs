//! What is kept of a node beside its content.

use vstd::prelude::*;

verus! {

/// The kind of a node.
#[derive(Clone, Copy, Debug, PartialEq, Eq, Structural)]
pub enum UnixFsNodeKind {
    File,
    Dir,
}

/// The UnixFS side of a node's metadata. Times are seconds of Unix time.
#[derive(Clone, Copy, Debug, PartialEq, Eq, Structural)]
pub struct UnixFsMetadata {
    pub created: i64,
    pub modified: i64,
    pub kind: UnixFsNodeKind,
}

/// The metadata of a node.
#[derive(Clone, Copy, Debug, PartialEq, Eq, Structural)]
pub struct Metadata {
    pub unix_fs: UnixFsMetadata,
}

impl Metadata {
    /// The metadata of a node that was created at `time`.
    pub open spec fn created_at(time: i64, kind: UnixFsNodeKind) -> Metadata {
        Metadata { unix_fs: UnixFsMetadata { created: time, modified: time, kind } }
    }

    /// The same metadata with another time of modification.
    pub open spec fn modified_at(self, time: i64) -> Metadata {
        Metadata { unix_fs: UnixFsMetadata { modified: time, ..self.unix_fs } }
    }

    /// Creates the metadata of a node that is created at `time`.
    pub fn new(time: i64, kind: UnixFsNodeKind) -> (metadata: Metadata)
        ensures
            metadata == Metadata::created_at(time, kind),
            metadata.unix_fs.created == time,
            metadata.unix_fs.modified == time,
            metadata.unix_fs.kind == kind,
    {
        Metadata { unix_fs: UnixFsMetadata { created: time, modified: time, kind } }
    }

    /// Tells whether the node is a file.
    pub fn is_file(&self) -> (file: bool)
        ensures
            file == (self.unix_fs.kind == UnixFsNodeKind::File),
    {
        matches!(self.unix_fs.kind, UnixFsNodeKind::File)
    }
}

/// A node that is modified keeps its time of creation and its kind.
pub proof fn law_modification_changes_one_time(metadata: Metadata, time: i64)
    ensures
        metadata.modified_at(time).unix_fs.modified == time,
        metadata.modified_at(time).unix_fs.created == metadata.unix_fs.created,
        metadata.modified_at(time).unix_fs.kind == metadata.unix_fs.kind,
{
}

} // verus!
