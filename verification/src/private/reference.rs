//! References to private nodes, and the keys in them.

use vstd::prelude::*;

use crate::common::HashOutput;
use crate::error::FsError;

verus! {

/// A symmetric key.
#[derive(Clone, Copy, Debug, PartialEq, Eq)]
pub struct Key(pub HashOutput);

impl View for Key {
    type V = Seq<u8>;

    open spec fn view(&self) -> Seq<u8> {
        self.0@
    }
}

/// The key that encrypts the content of a node.
pub type ContentKey = Key;

/// A ratchet key in its encrypted form, with the bare key if it is known.
#[derive(Debug, PartialEq, Eq)]
pub struct EncryptedRatchetKey {
    pub encrypted: Vec<u8>,
    pub bare: Option<Key>,
}

/// A ratchet key, bare or encrypted.
#[derive(Debug, PartialEq, Eq)]
pub enum RatchetKey {
    Bare(Key),
    Encrypted(EncryptedRatchetKey),
}

/// What a `RatchetKey` holds.
pub enum RatchetKeyView {
    Bare(Seq<u8>),
    Encrypted { encrypted: Seq<u8>, bare: Option<Seq<u8>> },
}

impl RatchetKeyView {
    /// The bare key, if it is known.
    pub open spec fn bare_key(self) -> Option<Seq<u8>> {
        match self {
            RatchetKeyView::Bare(key) => Some(key),
            RatchetKeyView::Encrypted { bare, .. } => bare,
        }
    }
}

/// The bytes of a key that may be missing.
pub open spec fn key_bytes(key: Option<Key>) -> Option<Seq<u8>> {
    match key {
        Some(key) => Some(key@),
        None => None,
    }
}

impl View for RatchetKey {
    type V = RatchetKeyView;

    open spec fn view(&self) -> RatchetKeyView {
        match self {
            RatchetKey::Bare(key) => RatchetKeyView::Bare(key@),
            RatchetKey::Encrypted(key) => RatchetKeyView::Encrypted {
                encrypted: key.encrypted@,
                bare: key_bytes(key.bare),
            },
        }
    }
}

/// Copies bytes.
pub(crate) fn copy_bytes(bytes: &Vec<u8>) -> (copy: Vec<u8>)
    ensures
        copy@ == bytes@,
{
    let mut copy: Vec<u8> = Vec::new();
    copy.extend_from_slice(bytes.as_slice());
    assert(copy@ =~= bytes@);
    copy
}

impl RatchetKey {
    /// Gives the bare key, or an error if only its encrypted form is known.
    pub fn get_bare_key(&self) -> (key: Result<Key, FsError>)
        ensures
            match self@.bare_key() {
                Some(bare) => key matches Ok(key) && key@ == bare,
                None => key == Err::<Key, FsError>(FsError::ExpectBareRatchetKey),
            },
            match self {
                RatchetKey::Bare(bare) => key == Ok::<Key, FsError>(*bare),
                RatchetKey::Encrypted(encrypted) => match encrypted.bare {
                    Some(bare) => key == Ok::<Key, FsError>(bare),
                    None => key == Err::<Key, FsError>(FsError::ExpectBareRatchetKey),
                },
            },
    {
        match self {
            RatchetKey::Bare(key) => Ok(*key),
            RatchetKey::Encrypted(encrypted) => match &encrypted.bare {
                Some(key) => Ok(*key),
                None => Err(FsError::ExpectBareRatchetKey),
            },
        }
    }

    /// Gives the bytes that the key is stored as: its encrypted form. A bare key is not stored.
    pub fn serialize(&self) -> (bytes: Result<Vec<u8>, FsError>)
        ensures
            match self@ {
                RatchetKeyView::Encrypted { encrypted, .. } => bytes matches Ok(bytes)
                    && bytes@ == encrypted,
                RatchetKeyView::Bare(_) => bytes == Err::<Vec<u8>, FsError>(
                    FsError::ExpectEncryptedRatchetKey,
                ),
            },
    {
        match self {
            RatchetKey::Encrypted(key) => Ok(copy_bytes(&key.encrypted)),
            RatchetKey::Bare(_) => Err(FsError::ExpectEncryptedRatchetKey),
        }
    }

    /// Reads a key from the bytes that it was stored as. Its bare form is not known.
    pub fn deserialize(bytes: Vec<u8>) -> (key: RatchetKey)
        ensures
            key@ == (RatchetKeyView::Encrypted { encrypted: bytes@, bare: None }),
    {
        RatchetKey::Encrypted(EncryptedRatchetKey { encrypted: bytes, bare: None })
    }
}

impl Clone for EncryptedRatchetKey {
    fn clone(&self) -> (copy: Self)
        ensures
            copy.encrypted@ == self.encrypted@,
            copy.bare == self.bare,
    {
        EncryptedRatchetKey { encrypted: copy_bytes(&self.encrypted), bare: self.bare }
    }
}

impl Clone for RatchetKey {
    fn clone(&self) -> (copy: Self)
        ensures
            copy@ == self@,
    {
        match self {
            RatchetKey::Bare(key) => RatchetKey::Bare(*key),
            RatchetKey::Encrypted(key) => RatchetKey::Encrypted(key.clone()),
        }
    }
}

/// A reference to one revision of a private node.
#[derive(Debug, PartialEq, Eq)]
pub struct PrivateRef {
    /// The SHA3-256 digest of the saturated name.
    pub saturated_name_hash: HashOutput,
    /// A digest of the ratchet key.
    pub content_key: ContentKey,
    /// The ratchet key, for those who may follow the node to its later revisions.
    pub ratchet_key: Option<RatchetKey>,
}

/// What a `PrivateRef` holds.
pub struct PrivateRefView {
    pub saturated_name_hash: Seq<u8>,
    pub content_key: Seq<u8>,
    pub ratchet_key: Option<RatchetKeyView>,
}

impl PrivateRefView {
    /// The place that the reference leads to.
    pub open spec fn locator(self) -> (Seq<u8>, Seq<u8>) {
        (self.saturated_name_hash, self.content_key)
    }
}

impl View for PrivateRef {
    type V = PrivateRefView;

    open spec fn view(&self) -> PrivateRefView {
        PrivateRefView {
            saturated_name_hash: self.saturated_name_hash@,
            content_key: self.content_key@,
            ratchet_key: match self.ratchet_key {
                Some(key) => Some(key@),
                None => None,
            },
        }
    }
}

impl Clone for PrivateRef {
    fn clone(&self) -> (copy: Self)
        ensures
            copy@ == self@,
    {
        PrivateRef {
            saturated_name_hash: self.saturated_name_hash,
            content_key: self.content_key,
            ratchet_key: match &self.ratchet_key {
                Some(key) => Some(key.clone()),
                None => None,
            },
        }
    }
}

/// The place that a reference leads to: what it takes to find and to decrypt a node.
#[derive(Clone, Copy, Debug, PartialEq, Eq)]
pub struct Locator {
    pub saturated_name_hash: HashOutput,
    pub content_key: ContentKey,
}

impl View for Locator {
    type V = (Seq<u8>, Seq<u8>);

    open spec fn view(&self) -> (Seq<u8>, Seq<u8>) {
        (self.saturated_name_hash@, self.content_key@)
    }
}

} // verus!
