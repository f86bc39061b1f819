//! Private directories.

use vstd::prelude::*;

use crate::common::HashOutput;
use crate::error::FsErrorView;
use crate::private::entries::Entries;
use crate::private::forest::PrivateForestView;
use crate::private::metadata::{Metadata, UnixFsNodeKind};
use crate::private::namefilter::Namefilter;
use crate::private::node::{INumber, PrivateNodeHeader, PrivateNodeHeaderView, PrivateNodeView};
use crate::private::reference::PrivateRefView;

verus! {

/// The content of a directory.
#[derive(Debug, PartialEq, Eq)]
pub struct PrivateDirectoryContent {
    pub metadata: Metadata,
    pub entries: Entries,
}

/// What a `PrivateDirectoryContent` holds.
pub struct PrivateDirectoryContentView {
    pub metadata: Metadata,
    pub entries: Map<Seq<char>, PrivateRefView>,
}

impl View for PrivateDirectoryContent {
    type V = PrivateDirectoryContentView;

    open spec fn view(&self) -> PrivateDirectoryContentView {
        PrivateDirectoryContentView { metadata: self.metadata, entries: self.entries@ }
    }
}

impl Clone for PrivateDirectoryContent {
    fn clone(&self) -> (copy: Self)
        ensures
            copy@ == self@,
    {
        PrivateDirectoryContent { metadata: self.metadata, entries: self.entries.clone() }
    }
}

/// A directory.
///
/// The header is a `PrivateNodeHeader`, or an `Option` of one where it may not be known.
#[derive(Debug, PartialEq, Eq)]
pub struct PrivateDirectory<H = PrivateNodeHeader> {
    pub header: H,
    pub content: PrivateDirectoryContent,
}

/// What a `PrivateDirectory` holds.
pub struct PrivateDirectoryView {
    pub header: PrivateNodeHeaderView,
    pub content: PrivateDirectoryContentView,
}

impl PrivateDirectoryView {
    /// A directory that is new under a parent, and empty.
    pub open spec fn fresh(
        parent_bare_name: Seq<Seq<u8>>,
        inumber: Seq<u8>,
        ratchet_seed: Seq<u8>,
        time: i64,
    ) -> PrivateDirectoryView {
        PrivateDirectoryView {
            header: PrivateNodeHeaderView::fresh(parent_bare_name, inumber, ratchet_seed),
            content: PrivateDirectoryContentView {
                metadata: Metadata::created_at(time, UnixFsNodeKind::Dir),
                entries: Map::empty(),
            },
        }
    }

    /// The directory at its next revision.
    pub open spec fn advanced(self) -> PrivateDirectoryView {
        PrivateDirectoryView { header: self.header.advanced(), ..self }
    }

    /// The directory with a name that leads to a node.
    pub open spec fn with_entry(
        self,
        name: Seq<char>,
        private_ref: PrivateRefView,
    ) -> PrivateDirectoryView {
        PrivateDirectoryView {
            content: PrivateDirectoryContentView {
                entries: self.content.entries.insert(name, private_ref),
                ..self.content
            },
            ..self
        }
    }

    /// The directory without a name.
    pub open spec fn without_entry(self, name: Seq<char>) -> PrivateDirectoryView {
        PrivateDirectoryView {
            content: PrivateDirectoryContentView {
                entries: self.content.entries.remove(name),
                ..self.content
            },
            ..self
        }
    }

    /// The node that a name in the directory leads to.
    pub open spec fn lookup(self, name: Seq<char>, forest: PrivateForestView) -> Result<
        Option<PrivateNodeView>,
        FsErrorView,
    > {
        if self.content.entries.contains_key(name) {
            forest.get(self.content.entries[name])
        } else {
            Ok(None)
        }
    }
}

impl View for PrivateDirectory<PrivateNodeHeader> {
    type V = PrivateDirectoryView;

    open spec fn view(&self) -> PrivateDirectoryView {
        PrivateDirectoryView { header: self.header@, content: self.content@ }
    }
}

impl<H: Clone> Clone for PrivateDirectory<H> {
    fn clone(&self) -> (copy: Self)
        ensures
            cloned(self.header, copy.header),
            copy.content@ == self.content@,
    {
        PrivateDirectory { header: self.header.clone(), content: self.content.clone() }
    }
}

impl PrivateDirectory<PrivateNodeHeader> {
    /// Creates an empty directory under a parent.
    pub fn new(
        parent_bare_name: Namefilter,
        inumber: INumber,
        ratchet_seed: HashOutput,
        time: i64,
    ) -> (directory: Self)
        ensures
            directory@ == PrivateDirectoryView::fresh(
                parent_bare_name@,
                inumber@,
                ratchet_seed@,
                time,
            ),
            directory@.header.inumber == inumber@,
            directory@.header.bare_name == parent_bare_name@.push(inumber@),
            directory@.header.ratchet == crate::ratchet::ratchet_seeded(ratchet_seed@, 0, 0),
            directory@.content.entries == Map::<Seq<char>, PrivateRefView>::empty(),
            directory.content.metadata.unix_fs.created == time,
            directory.content.metadata.unix_fs.modified == time,
            directory.content.metadata.unix_fs.kind == UnixFsNodeKind::Dir,
    {
        PrivateDirectory {
            header: PrivateNodeHeader::new(Some(parent_bare_name), inumber, ratchet_seed),
            content: PrivateDirectoryContent {
                metadata: Metadata::new(time, UnixFsNodeKind::Dir),
                entries: Entries::new(),
            },
        }
    }
}

} // verus!
