//! Private nodes and their headers.

use std::rc::Rc;

use vstd::prelude::*;

use skip_ratchet::Ratchet;

use crate::common::HashOutput;
use crate::hash::{Hasher, Sha3_256};
use crate::private::directory::{
    PrivateDirectory, PrivateDirectoryContentView, PrivateDirectoryView,
};
use crate::private::metadata::{Metadata, UnixFsNodeKind};
use crate::private::namefilter::Namefilter;
use crate::private::reference::{
    copy_bytes, Key, PrivateRef, PrivateRefView, RatchetKey, RatchetKeyView,
};
use crate::ratchet::derive_key;

verus! {

/// A number that is one node's own, through all of its revisions.
pub type INumber = HashOutput;

/// The domain in which a ratchet derives the key of a revision.
pub const REVISION_KEY_DOMAIN: &'static str = "WNFS revision key derivation from ratchet";

/// The secrets of a private node.
#[derive(Debug, PartialEq, Eq)]
pub struct PrivateNodeHeader {
    /// The name that the node keeps through its revisions.
    pub bare_name: Namefilter,
    /// Where the node is in the sequence of its revisions.
    pub ratchet: Ratchet,
    /// What tells the node from others.
    pub inumber: INumber,
}

/// What a `PrivateNodeHeader` holds.
pub struct PrivateNodeHeaderView {
    pub bare_name: Seq<Seq<u8>>,
    pub ratchet: Seq<u8>,
    pub inumber: Seq<u8>,
}

impl PrivateNodeHeaderView {
    /// The header of a new node under a parent.
    pub open spec fn fresh(
        parent_bare_name: Seq<Seq<u8>>,
        inumber: Seq<u8>,
        ratchet_seed: Seq<u8>,
    ) -> PrivateNodeHeaderView {
        PrivateNodeHeaderView {
            bare_name: parent_bare_name.push(inumber),
            ratchet: crate::ratchet::ratchet_seeded(ratchet_seed, 0, 0),
            inumber,
        }
    }

    /// The header of the next revision.
    pub open spec fn advanced(self) -> PrivateNodeHeaderView {
        PrivateNodeHeaderView { ratchet: crate::ratchet::ratchet_next(self.ratchet), ..self }
    }

    /// The key of this revision.
    pub open spec fn revision_key(self) -> Seq<u8> {
        crate::ratchet::ratchet_key(self.ratchet, REVISION_KEY_DOMAIN@)
    }

    /// The name of this revision: the bare name with the revision key added.
    pub open spec fn saturated_name(self) -> Seq<Seq<u8>> {
        self.bare_name.push(self.revision_key())
    }

    /// The reference to this revision.
    pub open spec fn private_ref(self) -> PrivateRefView {
        PrivateRefView {
            saturated_name_hash: crate::hash::sha3_256(self.saturated_name().flatten()),
            content_key: crate::hash::sha3_256(self.revision_key()),
            ratchet_key: Some(RatchetKeyView::Bare(self.revision_key())),
        }
    }
}

impl View for PrivateNodeHeader {
    type V = PrivateNodeHeaderView;

    open spec fn view(&self) -> PrivateNodeHeaderView {
        PrivateNodeHeaderView {
            bare_name: self.bare_name@,
            ratchet: crate::ratchet::ratchet_state(self.ratchet),
            inumber: self.inumber@,
        }
    }
}

/// The elements of a name that may be missing.
pub open spec fn name_or_empty(name: Option<Namefilter>) -> Seq<Seq<u8>> {
    match name {
        Some(name) => name@,
        None => Seq::empty(),
    }
}

impl PrivateNodeHeader {
    /// Creates the header of a new node under a parent. A node without a parent is a root.
    pub fn new(
        parent_bare_name: Option<Namefilter>,
        inumber: INumber,
        ratchet_seed: HashOutput,
    ) -> (header: PrivateNodeHeader)
        ensures
            header@ == PrivateNodeHeaderView::fresh(
                name_or_empty(parent_bare_name),
                inumber@,
                ratchet_seed@,
            ),
            header@.inumber == inumber@,
            header@.ratchet == crate::ratchet::ratchet_seeded(ratchet_seed@, 0, 0),
            header@.bare_name == match parent_bare_name {
                Some(name) => name@.push(inumber@),
                None => seq![inumber@],
            },
    {
        let mut bare_name = match parent_bare_name {
            Some(name) => name,
            None => Namefilter::default(),
        };
        bare_name.add(&inumber);
        PrivateNodeHeader { bare_name, ratchet: Ratchet::from_seed(&ratchet_seed, 0, 0), inumber }
    }

    /// Moves on to the next revision.
    pub fn advance_ratchet(&mut self)
        ensures
            final(self)@ == old(self)@.advanced(),
            final(self)@.ratchet == crate::ratchet::ratchet_next(old(self)@.ratchet),
            final(self)@.bare_name == old(self)@.bare_name,
            final(self)@.inumber == old(self)@.inumber,
    {
        self.ratchet.inc();
    }

    /// Derives the key of this revision.
    fn revision_key(&self) -> (key: HashOutput)
        ensures
            key@ == self@.revision_key(),
    {
        derive_key(&self.ratchet, REVISION_KEY_DOMAIN)
    }

    /// Gives the name of this revision.
    pub fn get_saturated_name(&self) -> (name: Namefilter)
        ensures
            name@ == self@.saturated_name(),
            name@ == self@.bare_name.push(
                crate::ratchet::ratchet_key(self@.ratchet, REVISION_KEY_DOMAIN@),
            ),
    {
        let mut name = self.bare_name.clone();
        name.add(&self.revision_key());
        name
    }

    /// Gives the reference to this revision.
    pub fn get_private_ref(&self) -> (private_ref: PrivateRef)
        ensures
            private_ref@ == self@.private_ref(),
    {
        let revision_key = self.revision_key();
        PrivateRef {
            saturated_name_hash: self.get_saturated_name().hash(),
            content_key: Key(Sha3_256::hash(revision_key.as_slice())),
            ratchet_key: Some(RatchetKey::Bare(Key(revision_key))),
        }
    }
}

impl Clone for PrivateNodeHeader {
    fn clone(&self) -> (copy: Self)
        ensures
            copy@ == self@,
    {
        PrivateNodeHeader {
            bare_name: self.bare_name.clone(),
            ratchet: self.ratchet.clone(),
            inumber: self.inumber,
        }
    }
}

/// The content of a file.
#[derive(Debug, PartialEq, Eq)]
pub struct PrivateFileContent {
    pub metadata: Metadata,
    pub content: Vec<u8>,
}

/// What a `PrivateFileContent` holds.
pub struct PrivateFileContentView {
    pub metadata: Metadata,
    pub content: Seq<u8>,
}

impl View for PrivateFileContent {
    type V = PrivateFileContentView;

    open spec fn view(&self) -> PrivateFileContentView {
        PrivateFileContentView { metadata: self.metadata, content: self.content@ }
    }
}

impl Clone for PrivateFileContent {
    fn clone(&self) -> (copy: Self)
        ensures
            copy@ == self@,
    {
        PrivateFileContent { metadata: self.metadata, content: copy_bytes(&self.content) }
    }
}

/// A file.
///
/// The header is a `PrivateNodeHeader`, or an `Option` of one where it may not be known.
#[derive(Debug, PartialEq, Eq)]
pub struct PrivateFile<H = PrivateNodeHeader> {
    pub header: H,
    pub content: PrivateFileContent,
}

/// What a `PrivateFile` holds.
pub struct PrivateFileView {
    pub header: PrivateNodeHeaderView,
    pub content: PrivateFileContentView,
}

impl PrivateFileView {
    /// A file that is new under a parent.
    pub open spec fn fresh(
        parent_bare_name: Seq<Seq<u8>>,
        inumber: Seq<u8>,
        ratchet_seed: Seq<u8>,
        time: i64,
        content: Seq<u8>,
    ) -> PrivateFileView {
        PrivateFileView {
            header: PrivateNodeHeaderView::fresh(parent_bare_name, inumber, ratchet_seed),
            content: PrivateFileContentView {
                metadata: Metadata::created_at(time, UnixFsNodeKind::File),
                content,
            },
        }
    }
}

impl View for PrivateFile<PrivateNodeHeader> {
    type V = PrivateFileView;

    open spec fn view(&self) -> PrivateFileView {
        PrivateFileView { header: self.header@, content: self.content@ }
    }
}

impl PrivateFile<PrivateNodeHeader> {
    /// Creates a file under a parent.
    pub fn new(
        parent_bare_name: Namefilter,
        inumber: INumber,
        ratchet_seed: HashOutput,
        time: i64,
        content: Vec<u8>,
    ) -> (file: Self)
        ensures
            file@ == PrivateFileView::fresh(
                parent_bare_name@,
                inumber@,
                ratchet_seed@,
                time,
                content@,
            ),
            file@.header.inumber == inumber@,
            file@.header.bare_name == parent_bare_name@.push(inumber@),
            file@.header.ratchet == crate::ratchet::ratchet_seeded(ratchet_seed@, 0, 0),
            file.content.content@ == content@,
            file.content.metadata.unix_fs.created == time,
            file.content.metadata.unix_fs.modified == time,
            file.content.metadata.unix_fs.kind == UnixFsNodeKind::File,
    {
        PrivateFile {
            header: PrivateNodeHeader::new(Some(parent_bare_name), inumber, ratchet_seed),
            content: PrivateFileContent {
                metadata: Metadata::new(time, UnixFsNodeKind::File),
                content,
            },
        }
    }
}

impl<H: Clone> Clone for PrivateFile<H> {
    fn clone(&self) -> (copy: Self)
        ensures
            cloned(self.header, copy.header),
            copy.content@ == self.content@,
    {
        PrivateFile { header: self.header.clone(), content: self.content.clone() }
    }
}

/// A file or a directory.
#[derive(Debug, PartialEq, Eq)]
pub enum PrivateNode<H = PrivateNodeHeader> {
    File(Rc<PrivateFile<H>>),
    Dir(Rc<PrivateDirectory<H>>),
}

/// What a `PrivateNode` holds.
pub enum PrivateNodeView {
    File(PrivateFileView),
    Dir(PrivateDirectoryView),
}

impl View for PrivateNode<PrivateNodeHeader> {
    type V = PrivateNodeView;

    open spec fn view(&self) -> PrivateNodeView {
        match self {
            PrivateNode::File(file) => PrivateNodeView::File(file@),
            PrivateNode::Dir(dir) => PrivateNodeView::Dir(dir@),
        }
    }
}

impl<H> Clone for PrivateNode<H> {
    fn clone(&self) -> (copy: Self)
        ensures
            copy == *self,
    {
        match self {
            PrivateNode::File(file) => PrivateNode::File(Rc::clone(file)),
            PrivateNode::Dir(dir) => PrivateNode::Dir(Rc::clone(dir)),
        }
    }
}

impl PrivateNodeView {
    /// The metadata of the node.
    pub open spec fn metadata(self) -> Metadata {
        match self {
            PrivateNodeView::File(file) => file.content.metadata,
            PrivateNodeView::Dir(dir) => dir.content.metadata,
        }
    }
}

impl<H: Clone> PrivateNode<H> {
    /// Gives the node, modified at another time. Nothing else changes.
    pub fn update_mtime(&self, time: i64) -> (node: Self)
        ensures
            match (*self, node) {
                (PrivateNode::File(before), PrivateNode::File(after)) => {
                    &&& cloned(before.header, after.header)
                    &&& after.content@ == (PrivateFileContentView {
                        metadata: before.content.metadata.modified_at(time),
                        ..before.content@
                    })
                    &&& after.content.content@ == before.content.content@
                    &&& after.content.metadata.unix_fs.modified == time
                    &&& after.content.metadata.unix_fs.created
                        == before.content.metadata.unix_fs.created
                    &&& after.content.metadata.unix_fs.kind == before.content.metadata.unix_fs.kind
                },
                (PrivateNode::Dir(before), PrivateNode::Dir(after)) => {
                    &&& cloned(before.header, after.header)
                    &&& after.content@ == (PrivateDirectoryContentView {
                        metadata: before.content.metadata.modified_at(time),
                        ..before.content@
                    })
                    &&& after.content.entries@ == before.content.entries@
                    &&& after.content.metadata.unix_fs.modified == time
                    &&& after.content.metadata.unix_fs.created
                        == before.content.metadata.unix_fs.created
                    &&& after.content.metadata.unix_fs.kind == before.content.metadata.unix_fs.kind
                },
                _ => false,
            },
    {
        match self {
            PrivateNode::File(file) => {
                let mut file = (**file).clone();
                file.content.metadata.unix_fs.modified = time;
                PrivateNode::File(Rc::new(file))
            },
            PrivateNode::Dir(dir) => {
                let mut dir = (**dir).clone();
                dir.content.metadata.unix_fs.modified = time;
                PrivateNode::Dir(Rc::new(dir))
            },
        }
    }
}

impl<H> From<PrivateFile<H>> for PrivateNode<H> {
    fn from(file: PrivateFile<H>) -> (node: Self) {
        PrivateNode::File(Rc::new(file))
    }
}

impl<H> vstd::std_specs::convert::FromSpecImpl<PrivateFile<H>> for PrivateNode<H> {
    open spec fn obeys_from_spec() -> bool {
        true
    }

    open spec fn from_spec(file: PrivateFile<H>) -> Self {
        PrivateNode::File(Rc::new(file))
    }
}

impl<H> From<PrivateDirectory<H>> for PrivateNode<H> {
    fn from(dir: PrivateDirectory<H>) -> (node: Self) {
        PrivateNode::Dir(Rc::new(dir))
    }
}

impl<H> vstd::std_specs::convert::FromSpecImpl<PrivateDirectory<H>> for PrivateNode<H> {
    open spec fn obeys_from_spec() -> bool {
        true
    }

    open spec fn from_spec(dir: PrivateDirectory<H>) -> Self {
        PrivateNode::Dir(Rc::new(dir))
    }
}

} // verus!
