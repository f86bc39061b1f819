use std::cell::Cell;

use num_bigint_dig::BigUint;
use sha3::{Digest, Sha3_256};
use skip_ratchet::Ratchet;
use wnfs::common::Rng;
use wnfs::private::header::{
    PrivateNodeHeader, RATCHET_INCREMENTS_DSS, REVISION_SEGMENT_DSS, TEMPORAL_KEY_DSS,
};
use wnfs::private::name::{Name, NameAccumulator, NameSegment};

struct CountingRng(Cell<u8>);

impl Rng for CountingRng {
    fn random_bytes<const N: usize>(&self) -> [u8; N] {
        let next = self.0.get();
        self.0.set(next + 1);
        [next; N]
    }
}

struct RisingRng(Cell<u8>);

impl Rng for RisingRng {
    fn random_bytes<const N: usize>(&self) -> [u8; N] {
        let mut bytes = [0u8; N];
        for byte in bytes.iter_mut() {
            *byte = self.0.get();
            self.0.set(*byte + 1);
        }
        bytes
    }
}

fn parent() -> Name {
    Name::new(NameAccumulator([1; 256]), vec![NameSegment([2; 32])])
}

fn header() -> PrivateNodeHeader {
    PrivateNodeHeader::with_seed(&parent(), [3; 32], NameSegment([4; 32]))
}

fn seeded(seed: [u8; 32]) -> Ratchet {
    let mut data = RATCHET_INCREMENTS_DSS.as_bytes().to_vec();
    assert_eq!(data, b"WNFS ratchet increments".to_vec());
    data.extend_from_slice(&seed);
    let hash = Sha3_256::digest(data);
    Ratchet::from_seed(&seed, hash[0], hash[1])
}

#[test]
fn increments_come_from_a_digest_of_the_seed() {
    let header = header();
    assert_eq!(header.ratchet, seeded([3; 32]));
    assert_eq!(header.inumber, NameSegment([4; 32]));
    let name = header.get_name();
    assert_eq!(name.relative_to, NameAccumulator([1; 256]));
    assert_eq!(name.segments, vec![NameSegment([2; 32]), NameSegment([4; 32])]);
}

#[test]
fn increments_can_be_given() {
    let header = PrivateNodeHeader::with_increments(
        &parent(),
        &[3; 32],
        5,
        2,
        NameSegment([4; 32]),
    );
    assert_eq!(header.ratchet, Ratchet::from_seed(&[3; 32], 5, 2));
    assert_eq!(header.name.segments.len(), 2);
}

#[test]
fn new_header_is_random() {
    let header = PrivateNodeHeader::new(&parent(), &CountingRng(Cell::new(9)));
    assert_eq!(header.inumber, NameSegment([9; 32]));
    assert_eq!(header.ratchet, seeded([10; 32]));
    assert_eq!(header.name.segments[1], NameSegment([9; 32]));
}

#[test]
fn ratchet_is_reset_to_a_random_one() {
    let mut header = header();
    header.reset_ratchet(&CountingRng(Cell::new(9)));
    assert_eq!(header.ratchet, Ratchet::from_seed(&[9; 32], 10, 10));
    header.reset_ratchet_to(&[1; 32], 2, 3);
    assert_eq!(header.ratchet, Ratchet::from_seed(&[1; 32], 2, 3));
    assert_eq!(header.inumber, NameSegment([4; 32]));
}

#[test]
fn increments_of_a_reset_ratchet_are_drawn_behind_its_seed() {
    let mut header = header();
    header.reset_ratchet(&RisingRng(Cell::new(0)));
    let mut seed = [0u8; 32];
    for (i, byte) in seed.iter_mut().enumerate() {
        *byte = i as u8;
    }
    assert_eq!(header.ratchet, Ratchet::from_seed(&seed, 33, 32));
    assert_ne!(header.ratchet, Ratchet::from_seed(&seed, 32, 33));
}

#[test]
fn name_stays_while_the_ratchet_moves_on() {
    let mut header = header();
    let mut ratchet = header.ratchet.clone();
    ratchet.inc();
    header.advance_ratchet();
    assert_eq!(header.ratchet, ratchet);
    assert_eq!(header.name.segments, vec![NameSegment([2; 32]), NameSegment([4; 32])]);
    assert_eq!(header.clone().ratchet, ratchet);
}

#[test]
fn revision_name_ends_in_the_revision_segment() {
    let header = header();
    let segment: [u8; 32] = header
        .ratchet
        .derive_key(REVISION_SEGMENT_DSS)
        .finalize()
        .into();
    assert_eq!(header.derive_revision_segment(), NameSegment(segment));
    assert_eq!(
        header.get_revision_name().segments,
        vec![NameSegment([2; 32]), NameSegment([4; 32]), NameSegment(segment)]
    );
}

#[test]
fn revision_ref_holds_a_digest_and_the_temporal_key() {
    let header = header();
    let key: [u8; 32] = header.ratchet.derive_key(TEMPORAL_KEY_DSS).finalize().into();
    let revision_ref = header.derive_revision_ref(&NameAccumulator([8; 256]));
    assert_eq!(revision_ref.temporal_key.0 .0, key);
    assert_eq!(revision_ref.temporal_key, header.derive_temporal_key());
    assert_eq!(
        revision_ref.revision_name_hash[..],
        Sha3_256::digest([8u8; 256])[..]
    );
}

#[test]
fn moved_header_is_under_its_new_parent() {
    let mut header = header();
    header.update_name(&Name::new(NameAccumulator([5; 256]), Vec::new()));
    assert_eq!(header.name.relative_to, NameAccumulator([5; 256]));
    assert_eq!(header.name.segments, vec![NameSegment([4; 32])]);
}

#[test]
fn stored_header_is_mounted_where_it_was() {
    let header = header();
    let accumulator = NameAccumulator([6; 256]);
    let stored = header.to_serializable(&accumulator);
    assert_eq!(
        PrivateNodeHeader::mounted_name(&stored, &parent()).segments,
        header.name.segments
    );
    let loaded = PrivateNodeHeader::load(stored, Some((&parent(), &accumulator)))
        .ok()
        .unwrap();
    assert_eq!(loaded.inumber, header.inumber);
    assert_eq!(loaded.ratchet, header.ratchet);
    assert_eq!(loaded.name.relative_to, header.name.relative_to);
    assert_eq!(loaded.name.segments, header.name.segments);
}

#[test]
fn stored_header_without_a_parent_has_the_stored_name() {
    let accumulator = NameAccumulator([6; 256]);
    let stored = header().to_serializable(&accumulator);
    let loaded = PrivateNodeHeader::load(stored, None).ok().unwrap();
    assert_eq!(loaded.name.relative_to, accumulator);
    assert!(loaded.name.segments.is_empty());
    let stored = header().to_serializable(&accumulator);
    let loaded = PrivateNodeHeader::from_serializable(stored);
    assert_eq!(loaded.name.relative_to, accumulator);
    assert_eq!(loaded.inumber, NameSegment([4; 32]));
}

#[test]
fn stored_header_is_not_mounted_elsewhere() {
    let accumulator = NameAccumulator([6; 256]);
    let mut bytes = [6; 256];
    bytes[255] = 7;
    let elsewhere = NameAccumulator(bytes);
    let stored = header().to_serializable(&accumulator);
    match PrivateNodeHeader::load(stored, Some((&parent(), &elsewhere))) {
        Ok(_) => panic!("mounted"),
        Err(mismatch) => {
            assert_eq!(mismatch.mounted, elsewhere);
            assert_eq!(mismatch.deserialized, accumulator);
        }
    }
}

#[test]
fn accumulator_is_the_fixed_width_form_of_its_state() {
    let accumulator = NameAccumulator::from_state(&BigUint::from(258u32)).unwrap();
    assert_eq!(accumulator.0[..3], [2, 1, 0]);
    assert!(accumulator.same(&accumulator));
    assert!(!accumulator.same(&NameAccumulator([0; 256])));
    let too_large = BigUint::from_bytes_le(&[1u8; 257]);
    assert_eq!(NameAccumulator::from_state(&too_large), None);
}

#[test]
fn segments_are_added_to_the_end() {
    let mut name = parent();
    name.add_segments(&[NameSegment([7; 32]), NameSegment::from_digest([8; 32])]);
    assert_eq!(
        name.segments,
        vec![NameSegment([2; 32]), NameSegment([7; 32]), NameSegment([8; 32])]
    );
    assert_eq!(name.with_segments_added(&[]).segments, name.segments);
}

#[test]
fn revisions_have_names_of_their_own() {
    let first = header();
    let mut second = first.clone();
    assert_eq!(first, second);
    assert_eq!(first.get_revision_name(), second.get_revision_name());
    second.advance_ratchet();
    assert_ne!(first, second);
    assert_eq!(first.get_name(), second.get_name());
    assert_ne!(first.get_revision_name(), second.get_revision_name());
    assert_eq!(
        first.get_revision_name().segments[..2],
        second.get_revision_name().segments[..2]
    );
}
