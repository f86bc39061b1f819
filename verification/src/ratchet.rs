//! The skip ratchet that versions a private node and derives its keys.
//!
//! A ratchet is seen through the bytes of its state. What those bytes become is up to the
//! `skip_ratchet` crate; the names below stand for it.

use vstd::prelude::*;

use libipld::cbor::DagCborCodec;
use libipld::codec::Codec;
use libipld::Ipld;
use skip_ratchet::Ratchet;

use crate::common::HashOutput;
use crate::ipld::IpldView;

verus! {

/// `skip_ratchet::Ratchet`, whose fields stay hidden.
#[verifier::external_type_specification]
#[verifier::external_body]
pub struct ExRatchet(skip_ratchet::Ratchet);

/// What a ratchet holds: its salt, its three digits and its two counters.
pub uninterp spec fn ratchet_state(ratchet: skip_ratchet::Ratchet) -> Seq<u8>;

/// The state of a ratchet that starts from a seed, with the given increments applied.
pub uninterp spec fn ratchet_seeded(seed: Seq<u8>, inc_small: u8, inc_med: u8) -> Seq<u8>;

/// The state that follows a state by one step.
pub uninterp spec fn ratchet_next(state: Seq<u8>) -> Seq<u8>;

/// The key that a ratchet in a given state derives for a domain.
pub uninterp spec fn ratchet_key(state: Seq<u8>, domain: Seq<char>) -> Seq<u8>;

/// `Ratchet::from_seed`.
///
/// Trusted: the state depends on the seed and the two increments alone.
pub assume_specification[ skip_ratchet::Ratchet::from_seed ](
    seed: &[u8; 32],
    inc_small: u8,
    inc_med: u8,
) -> (ratchet: skip_ratchet::Ratchet)
    ensures
        ratchet_state(ratchet) == ratchet_seeded(seed@, inc_small, inc_med),
;

/// `Ratchet::inc`.
///
/// Trusted: the new state depends on the old one alone.
pub assume_specification[ skip_ratchet::Ratchet::inc ](ratchet: &mut skip_ratchet::Ratchet)
    ensures
        ratchet_state(*final(ratchet)) == ratchet_next(ratchet_state(*old(ratchet))),
;

/// `Ratchet`'s `Clone`, which copies each field.
///
/// Trusted: the copy is in the same state.
pub assume_specification[ <skip_ratchet::Ratchet as Clone>::clone ](
    ratchet: &skip_ratchet::Ratchet,
) -> (copy: skip_ratchet::Ratchet)
    ensures
        ratchet_state(copy) == ratchet_state(*ratchet),
;

/// Derives a key with `Ratchet::derive_key`, and takes the first 32 bytes of what the hasher
/// that it returns gives.
///
/// Trusted: the key depends on the state of the ratchet and on the domain alone.
#[verifier::external_body]
pub(crate) fn derive_key(ratchet: &Ratchet, domain: &str) -> (key: HashOutput)
    ensures
        key@ == ratchet_key(ratchet_state(*ratchet), domain@),
{
    ratchet.derive_key(domain).finalize().into()
}

/// The IPLD value that a ratchet in a given state is written as.
pub uninterp spec fn ratchet_written(state: Seq<u8>) -> IpldView;

/// The state of the ratchet that an IPLD value is read as, or `None` where it is none.
pub uninterp spec fn ratchet_read(value: IpldView) -> Option<Seq<u8>>;

/// Writes a ratchet with its `Serialize` and `serde_ipld_dagcbor::to_vec`, and reads the bytes as
/// the IPLD value that they are.
///
/// Trusted: the value depends on the state of the ratchet alone. It is a map of bytes and small
/// numbers, and the ratchet is read from it again.
#[verifier::external_body]
pub(crate) fn ratchet_to_ipld(ratchet: &Ratchet) -> (ipld: Ipld)
    ensures
        crate::ipld::ipld_view(ipld) == ratchet_written(ratchet_state(*ratchet)),
        crate::ipld::is_plain(crate::ipld::ipld_view(ipld), 1),
        ratchet_read(crate::ipld::ipld_view(ipld)) == Some(ratchet_state(*ratchet)),
{
    let bytes = serde_ipld_dagcbor::to_vec(ratchet).unwrap();
    DagCborCodec.decode(&bytes).unwrap()
}

/// Reads a ratchet with its `Deserialize` and `serde_ipld_dagcbor::from_slice`, from the bytes
/// that the IPLD value is written as.
///
/// Trusted: whether there is a ratchet, and its state, depends on the value alone.
#[verifier::external_body]
pub(crate) fn ratchet_from_ipld(ipld: &Ipld) -> (ratchet: Option<Ratchet>)
    ensures
        match ratchet {
            Some(ratchet) => ratchet_read(crate::ipld::ipld_view(*ipld)) == Some(
                ratchet_state(ratchet),
            ),
            None => ratchet_read(crate::ipld::ipld_view(*ipld)) is None,
        },
{
    let bytes = DagCborCodec.encode(ipld).ok()?;
    serde_ipld_dagcbor::from_slice(&bytes).ok()
}

} // verus!
