//! Sharing a private node with the holder of another key.

use vstd::prelude::*;

use libipld_core::cid::Cid;

use crate::common::HashOutput;
use crate::private::header::TemporalKey;
use crate::private::reference::Key;

verus! {

/// `libipld_core::cid::Error`, which says why bytes are no CID.
#[verifier::external_type_specification]
#[verifier::external_body]
pub struct ExCidError(libipld_core::cid::Error);

/// The byte form of the CID that bytes are read as, or `None` where they are no CID.
pub uninterp spec fn cid_read(bytes: Seq<u8>) -> Option<Seq<u8>>;

/// Reads a CID with `Cid::try_from`, and gives the bytes that `Cid::to_bytes` writes it as.
///
/// Trusted: whether the bytes are a CID, and which, depends on them alone. What follows the CID
/// in the bytes is ignored, so the bytes that come back may be fewer.
#[verifier::external_body]
fn read_cid(bytes: &[u8]) -> (cid: Result<Vec<u8>, libipld_core::cid::Error>)
    ensures
        match cid {
            Ok(cid) => cid_read(bytes@) == Some(cid@),
            Err(_) => cid_read(bytes@) is None,
        },
{
    Cid::try_from(bytes).map(|cid| cid.to_bytes())
}

/// A link to a shared node that can be followed to its later revisions.
#[derive(Debug, PartialEq, Eq)]
pub struct TemporalSharePointer {
    pub label: HashOutput,
    /// The CID of the node.
    pub cid: Vec<u8>,
    pub temporal_key: TemporalKey,
}

/// A link to one revision of a shared node.
#[derive(Debug, PartialEq, Eq)]
pub struct SnapshotSharePointer {
    pub label: HashOutput,
    /// The CID of the node.
    pub cid: Vec<u8>,
    pub snapshot_key: Key,
}

/// What is handed over to share a node.
#[derive(Debug, PartialEq, Eq)]
pub enum SharePayload {
    Temporal(TemporalSharePointer),
    Snapshot(SnapshotSharePointer),
}

impl SharePayload {
    /// The label that the node has in its forest.
    pub open spec fn label(&self) -> Seq<u8> {
        match self {
            SharePayload::Temporal(pointer) => pointer.label@,
            SharePayload::Snapshot(pointer) => pointer.label@,
        }
    }

    /// Gives the label that the node has in its forest.
    pub fn get_label(&self) -> (label: Vec<u8>)
        ensures
            label@ == self.label(),
            match self {
                SharePayload::Temporal(pointer) => label@ == pointer.label@,
                SharePayload::Snapshot(pointer) => label@ == pointer.label@,
            },
    {
        let label = match self {
            SharePayload::Temporal(pointer) => &pointer.label,
            SharePayload::Snapshot(pointer) => &pointer.label,
        };
        let mut bytes: Vec<u8> = Vec::new();
        bytes.extend_from_slice(label.as_slice());
        assert(bytes@ =~= label@);
        bytes
    }
}

/// Why nothing can be shared.
#[derive(Clone, Copy, Debug, PartialEq, Eq, Structural)]
pub enum ShareError {
    /// The root of the recipient's exchange keys is no CID.
    InvalidCid,
}

/// A request to share a node that can be carried out.
#[derive(Debug, PartialEq, Eq)]
pub struct ShareRequest {
    pub share_payload: SharePayload,
    /// The number of nodes that were shared with the recipient so far.
    pub share_count: u64,
    /// The DID of the one who shares.
    pub sharer_root_did: String,
    /// The CID of the root of the recipient's exchange keys.
    pub recipient_exchange_root: Vec<u8>,
}

impl ShareRequest {
    /// Makes a request to share a node, where the root of the recipient's exchange keys was
    /// read already. Without a root nothing can be shared.
    pub fn with_root(
        share_payload: SharePayload,
        share_count: u32,
        sharer_root_did: String,
        recipient_exchange_root: Option<Vec<u8>>,
    ) -> (request: Result<ShareRequest, ShareError>)
        ensures
            match recipient_exchange_root {
                Some(cid) => {
                    &&& request matches Ok(request)
                    &&& request.share_payload == share_payload
                    &&& request.share_count == share_count
                    &&& request.sharer_root_did == sharer_root_did
                    &&& request.recipient_exchange_root == cid
                },
                None => request matches Err(error) && error == ShareError::InvalidCid,
            },
    {
        match recipient_exchange_root {
            Some(cid) => Ok(
                ShareRequest {
                    share_payload,
                    share_count: share_count as u64,
                    sharer_root_did,
                    recipient_exchange_root: cid,
                },
            ),
            None => Err(ShareError::InvalidCid),
        }
    }
}

/// Makes a request to share a node. The root of the recipient's exchange keys has to be a CID.
pub fn share(
    share_payload: SharePayload,
    share_count: u32,
    sharer_root_did: String,
    recipient_exchange_root: &[u8],
) -> (request: Result<ShareRequest, ShareError>)
    ensures
        match cid_read(recipient_exchange_root@) {
            Some(cid) => {
                &&& request matches Ok(request)
                &&& request.share_payload == share_payload
                &&& request.share_count == share_count
                &&& request.sharer_root_did == sharer_root_did
                &&& request.recipient_exchange_root@ == cid
            },
            None => request matches Err(error) && error == ShareError::InvalidCid,
        },
{
    let root = match read_cid(recipient_exchange_root) {
        Ok(cid) => Some(cid),
        Err(_) => None,
    };
    ShareRequest::with_root(share_payload, share_count, sharer_root_did, root)
}

} // verus!
