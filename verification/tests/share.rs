use wnfs::private::header::TemporalKey;
use wnfs::private::reference::Key;
use wnfs::private::share::{
    share, ShareError, SharePayload, ShareRequest, SnapshotSharePointer, TemporalSharePointer,
};

fn temporal() -> SharePayload {
    SharePayload::Temporal(TemporalSharePointer {
        label: [1; 32],
        cid: vec![2],
        temporal_key: TemporalKey(Key([3; 32])),
    })
}

fn snapshot() -> SharePayload {
    SharePayload::Snapshot(SnapshotSharePointer {
        label: [4; 32],
        cid: vec![5],
        snapshot_key: Key([6; 32]),
    })
}

/// A CID of version 1 for raw bytes with a SHA2-256 digest.
fn cid() -> Vec<u8> {
    let mut bytes = vec![0x01, 0x55, 0x12, 0x20];
    bytes.extend_from_slice(&[7; 32]);
    bytes
}

#[test]
fn label_is_that_of_the_pointer() {
    assert_eq!(temporal().get_label(), vec![1; 32]);
    assert_eq!(snapshot().get_label(), vec![4; 32]);
}

#[test]
fn share_needs_a_cid() {
    let share_with = |root: &[u8]| share(temporal(), 3, "did:key:z6Mk".to_string(), root);
    assert_eq!(share_with(&[]).err(), Some(ShareError::InvalidCid));
    assert_eq!(share_with(&[9, 9, 9]).err(), Some(ShareError::InvalidCid));
    assert_eq!(share_with(&cid()[..20]).err(), Some(ShareError::InvalidCid));
    let request = share_with(&cid()).ok().unwrap();
    assert_eq!(request.recipient_exchange_root, cid());
    assert_eq!(request.share_count, 3);
    assert_eq!(request.sharer_root_did, "did:key:z6Mk");
    assert_eq!(request.share_payload.get_label(), vec![1; 32]);
}

#[test]
fn what_follows_the_cid_is_ignored() {
    let mut bytes = cid();
    bytes.push(0);
    let request = share(snapshot(), u32::MAX, String::new(), &bytes).ok().unwrap();
    assert_eq!(request.recipient_exchange_root, cid());
    assert_eq!(request.share_count, 4294967295u64);
}

#[test]
fn request_needs_a_root() {
    let with_root = |root| ShareRequest::with_root(snapshot(), 1, String::new(), root);
    assert_eq!(with_root(None).err(), Some(ShareError::InvalidCid));
    assert_eq!(
        with_root(Some(vec![8])).ok().unwrap().recipient_exchange_root,
        vec![8]
    );
}
