//! Node headers whose names are kept in an accumulator.

use vstd::prelude::*;

use skip_ratchet::Ratchet;

use crate::common::{HashOutput, Rng, HASH_BYTE_SIZE};
use crate::hash::{Hasher, Sha3_256};
use crate::private::name::{Name, NameAccumulator, NameSegment, NameView};
use crate::private::reference::Key;
use crate::ratchet::derive_key;

verus! {

/// What the seed of a ratchet is hashed with to get the increments that it starts with.
pub const RATCHET_INCREMENTS_DSS: &'static str = "WNFS ratchet increments";

/// The domain in which a ratchet derives the last segment of a revision's name.
pub const REVISION_SEGMENT_DSS: &'static str = "wnfs/1.0/revision segment derivation from ratchet";

/// The domain in which a ratchet derives the temporal key of a revision.
pub const TEMPORAL_KEY_DSS: &'static str = "wnfs/1.0/temporal key derivation from ratchet";

/// The header of a private node: the secrets of the node, which are its inumber, its ratchet
/// and its name.
#[derive(Debug, PartialEq, Eq)]
pub struct PrivateNodeHeader {
    /// What tells the node from others.
    pub inumber: NameSegment,
    /// Where the node is in the sequence of its revisions.
    pub ratchet: Ratchet,
    /// The name that the node keeps through its revisions.
    pub name: Name,
}

/// What a `PrivateNodeHeader` holds.
pub struct PrivateNodeHeaderView {
    pub inumber: Seq<u8>,
    pub ratchet: Seq<u8>,
    pub name: NameView,
}

/// A key that gives access to one revision of a node and to all later ones.
#[derive(Clone, Copy, Debug, PartialEq, Eq)]
pub struct TemporalKey(pub Key);

impl View for TemporalKey {
    type V = Seq<u8>;

    open spec fn view(&self) -> Seq<u8> {
        self.0@
    }
}

/// A reference to one revision of a node.
#[derive(Clone, Copy, Debug, PartialEq, Eq)]
pub struct RevisionRef {
    /// The SHA3-256 digest of the accumulator of the revision's name.
    pub revision_name_hash: HashOutput,
    pub temporal_key: TemporalKey,
}

/// A header in the form in which it is stored.
#[derive(Debug, PartialEq, Eq)]
pub struct PrivateNodeHeaderSerializable {
    pub inumber: NameSegment,
    pub ratchet: Ratchet,
    pub name: NameAccumulator,
}

/// What a `PrivateNodeHeaderSerializable` holds.
pub struct PrivateNodeHeaderSerializableView {
    pub inumber: Seq<u8>,
    pub ratchet: Seq<u8>,
    pub name: Seq<u8>,
}

/// A header was stored under another name than that of the place where it is mounted.
#[derive(Clone, Copy, Debug, PartialEq, Eq)]
pub struct MountPointAndDeserializedNameMismatch {
    /// The accumulator of the name at the mount point.
    pub mounted: NameAccumulator,
    /// The accumulator that was stored.
    pub deserialized: NameAccumulator,
}

impl View for PrivateNodeHeader {
    type V = PrivateNodeHeaderView;

    open spec fn view(&self) -> PrivateNodeHeaderView {
        PrivateNodeHeaderView {
            inumber: self.inumber@,
            ratchet: crate::ratchet::ratchet_state(self.ratchet),
            name: self.name@,
        }
    }
}

impl View for PrivateNodeHeaderSerializable {
    type V = PrivateNodeHeaderSerializableView;

    open spec fn view(&self) -> PrivateNodeHeaderSerializableView {
        PrivateNodeHeaderSerializableView {
            inumber: self.inumber@,
            ratchet: crate::ratchet::ratchet_state(self.ratchet),
            name: self.name@,
        }
    }
}

/// The digest that a ratchet's increments are taken from.
pub open spec fn seed_hash(ratchet_seed: Seq<u8>) -> Seq<u8> {
    crate::hash::sha3_256(vstd::utf8::encode_utf8(RATCHET_INCREMENTS_DSS@) + ratchet_seed)
}

impl PrivateNodeHeaderView {
    /// The header of a new node under a parent.
    pub open spec fn seeded(
        parent_name: NameView,
        ratchet_seed: Seq<u8>,
        inumber: Seq<u8>,
    ) -> PrivateNodeHeaderView {
        PrivateNodeHeaderView {
            inumber,
            ratchet: crate::ratchet::ratchet_seeded(
                ratchet_seed,
                seed_hash(ratchet_seed)[0],
                seed_hash(ratchet_seed)[1],
            ),
            name: parent_name.child(inumber),
        }
    }

    /// The header of the next revision.
    pub open spec fn advanced(self) -> PrivateNodeHeaderView {
        PrivateNodeHeaderView { ratchet: crate::ratchet::ratchet_next(self.ratchet), ..self }
    }

    /// The same header under another parent.
    pub open spec fn under(self, parent_name: NameView) -> PrivateNodeHeaderView {
        PrivateNodeHeaderView { name: parent_name.child(self.inumber), ..self }
    }

    /// The temporal key of this revision.
    pub open spec fn temporal_key(self) -> Seq<u8> {
        crate::ratchet::ratchet_key(self.ratchet, TEMPORAL_KEY_DSS@)
    }

    /// The last segment of the name of this revision.
    pub open spec fn revision_segment(self) -> Seq<u8> {
        crate::ratchet::ratchet_key(self.ratchet, REVISION_SEGMENT_DSS@)
    }

    /// The name of this revision.
    pub open spec fn revision_name(self) -> NameView {
        self.name.child(self.revision_segment())
    }

    /// The header as it is stored, with the accumulator of its name.
    pub open spec fn stored(self, accumulator: Seq<u8>) -> PrivateNodeHeaderSerializableView {
        PrivateNodeHeaderSerializableView {
            inumber: self.inumber,
            ratchet: self.ratchet,
            name: accumulator,
        }
    }
}

impl PrivateNodeHeaderSerializableView {
    /// The header that was stored, under the name that its accumulator commits to.
    pub open spec fn loaded(self) -> PrivateNodeHeaderView {
        PrivateNodeHeaderView {
            inumber: self.inumber,
            ratchet: self.ratchet,
            name: NameView { relative_to: self.name, segments: Seq::empty() },
        }
    }

    /// The header that was stored, mounted under a parent if there is one. Beside the parent
    /// stands the accumulator of the mounted name. Where it is not the one that was stored, the
    /// error holds both.
    pub open spec fn mounted(self, parent: Option<(NameView, Seq<u8>)>) -> Result<
        PrivateNodeHeaderView,
        (Seq<u8>, Seq<u8>),
    > {
        match parent {
            Some((parent_name, accumulator)) => if accumulator == self.name {
                Ok(self.loaded().under(parent_name))
            } else {
                Err((accumulator, self.name))
            },
            None => Ok(self.loaded()),
        }
    }
}

/// A parent's name and an accumulator, if they are there.
pub open spec fn mount_point(parent: Option<(&Name, &NameAccumulator)>) -> Option<
    (NameView, Seq<u8>),
> {
    match parent {
        Some((parent_name, accumulator)) => Some((parent_name@, accumulator@)),
        None => None,
    }
}

/// Appends one segment to a name.
fn child_name(parent_name: &Name, segment: NameSegment) -> (name: Name)
    ensures
        name@ == parent_name@.child(segment@),
{
    let added: [NameSegment; 1] = [segment];
    let name = parent_name.with_segments_added(added.as_slice());
    assert(crate::private::name::segment_views(added@) =~= seq![segment@]);
    assert(name@.segments =~= parent_name@.segments.push(segment@));
    name
}

impl PrivateNodeHeader {
    /// Creates the header of a new node under a parent, with a random inumber and a random
    /// ratchet.
    pub fn new<R: Rng>(parent_name: &Name, rng: &R) -> (header: PrivateNodeHeader)
        ensures
            exists|ratchet_seed: HashOutput, inumber: HashOutput| #[trigger]
                call_ensures(R::random_bytes::<HASH_BYTE_SIZE>, (rng,), ratchet_seed)
                    && #[trigger] call_ensures(R::random_bytes::<HASH_BYTE_SIZE>, (rng,), inumber)
                    && header@ == PrivateNodeHeaderView::seeded(
                    parent_name@,
                    ratchet_seed@,
                    inumber@,
                ),
    {
        let inumber = NameSegment::new(rng);
        let ratchet_seed: HashOutput = rng.random_bytes::<HASH_BYTE_SIZE>();
        Self::with_seed(parent_name, ratchet_seed, inumber)
    }

    /// Creates the header of a new node under a parent, with the increments that its ratchet
    /// starts with.
    pub fn with_increments(
        parent_name: &Name,
        ratchet_seed: &HashOutput,
        inc_small: u8,
        inc_med: u8,
        inumber: NameSegment,
    ) -> (header: PrivateNodeHeader)
        ensures
            header@ == (PrivateNodeHeaderView {
                inumber: inumber@,
                ratchet: crate::ratchet::ratchet_seeded(ratchet_seed@, inc_small, inc_med),
                name: parent_name@.child(inumber@),
            }),
    {
        PrivateNodeHeader {
            name: child_name(parent_name, inumber),
            ratchet: Ratchet::from_seed(ratchet_seed, inc_small, inc_med),
            inumber,
        }
    }

    /// Creates the header of a new node under a parent.
    ///
    /// The increments that the ratchet starts with come from a digest of the seed, so that they
    /// say nothing about the seed itself.
    pub fn with_seed(
        parent_name: &Name,
        ratchet_seed: HashOutput,
        inumber: NameSegment,
    ) -> (header: PrivateNodeHeader)
        ensures
            header@ == PrivateNodeHeaderView::seeded(parent_name@, ratchet_seed@, inumber@),
    {
        let mut bytes: Vec<u8> = Vec::new();
        bytes.extend_from_slice(RATCHET_INCREMENTS_DSS.as_bytes());
        bytes.extend_from_slice(ratchet_seed.as_slice());
        assert(bytes@ =~= vstd::utf8::encode_utf8(RATCHET_INCREMENTS_DSS@) + ratchet_seed@);
        let seed_hash = Sha3_256::hash(bytes.as_slice());
        Self::with_increments(parent_name, &ratchet_seed, seed_hash[0], seed_hash[1], inumber)
    }

    /// Moves on to the next revision.
    pub fn advance_ratchet(&mut self)
        ensures
            final(self)@ == old(self)@.advanced(),
    {
        self.ratchet.inc();
    }

    /// Moves the node under another parent.
    pub fn update_name(&mut self, parent_name: &Name)
        ensures
            final(self)@ == old(self)@.under(parent_name@),
    {
        self.name = child_name(parent_name, self.inumber);
    }

    /// Sets the ratchet to one that starts from a seed and two increments.
    pub fn reset_ratchet_to(&mut self, seed: &HashOutput, inc_small: u8, inc_med: u8)
        ensures
            final(self)@ == (PrivateNodeHeaderView {
                ratchet: crate::ratchet::ratchet_seeded(seed@, inc_small, inc_med),
                ..old(self)@
            }),
    {
        self.ratchet = Ratchet::from_seed(seed, inc_small, inc_med);
    }

    /// Sets the ratchet to a random one.
    pub fn reset_ratchet<R: Rng>(&mut self, rng: &R)
        ensures
            exists|seed: HashOutput, incs: [u8; 2]| #[trigger]
                call_ensures(R::random_bytes::<HASH_BYTE_SIZE>, (rng,), seed) && #[trigger]
                call_ensures(R::random_bytes::<2>, (rng,), incs) && final(self)@ == (
                PrivateNodeHeaderView {
                    ratchet: crate::ratchet::ratchet_seeded(seed@, incs@[1], incs@[0]),
                    ..old(self)@
                }),
    {
        let seed: HashOutput = rng.random_bytes::<HASH_BYTE_SIZE>();
        let incs: [u8; 2] = rng.random_bytes::<2>();
        self.reset_ratchet_to(&seed, incs[1], incs[0]);
    }

    /// Derives the reference to this revision. The accumulator is that of its revision name.
    pub fn derive_revision_ref(&self, revision_name: &NameAccumulator) -> (revision_ref:
        RevisionRef)
        ensures
            revision_ref.temporal_key@ == self@.temporal_key(),
            revision_ref.revision_name_hash@ == crate::hash::sha3_256(revision_name@),
    {
        RevisionRef {
            revision_name_hash: Sha3_256::hash(revision_name.0.as_slice()),
            temporal_key: self.derive_temporal_key(),
        }
    }

    /// Derives the temporal key of this revision.
    pub fn derive_temporal_key(&self) -> (key: TemporalKey)
        ensures
            key@ == self@.temporal_key(),
    {
        TemporalKey(Key(derive_key(&self.ratchet, TEMPORAL_KEY_DSS)))
    }

    /// Derives the last segment of the name of this revision.
    pub fn derive_revision_segment(&self) -> (segment: NameSegment)
        ensures
            segment@ == self@.revision_segment(),
    {
        NameSegment::from_digest(derive_key(&self.ratchet, REVISION_SEGMENT_DSS))
    }

    /// Gives the name of this revision: the name of the node with one more segment, which is
    /// the revision's own.
    pub fn get_revision_name(&self) -> (name: Name)
        ensures
            name@ == self@.revision_name(),
    {
        child_name(&self.name, self.derive_revision_segment())
    }

    /// Gives the name of the node, which stays through its revisions.
    pub fn get_name(&self) -> (name: &Name)
        ensures
            name@ == self@.name,
    {
        &self.name
    }

    /// Gives the header as it is stored. The accumulator is that of its name.
    pub fn to_serializable(&self, name: &NameAccumulator) -> (serializable:
        PrivateNodeHeaderSerializable)
        ensures
            serializable@ == self@.stored(name@),
    {
        PrivateNodeHeaderSerializable {
            inumber: self.inumber,
            ratchet: self.ratchet.clone(),
            name: *name,
        }
    }

    /// Gives the header that was stored, under the name that its accumulator commits to.
    pub fn from_serializable(serializable: PrivateNodeHeaderSerializable) -> (header:
        PrivateNodeHeader)
        ensures
            header@ == serializable@.loaded(),
    {
        let none: Vec<NameSegment> = Vec::new();
        assert(crate::private::name::segment_views(none@) =~= Seq::empty());
        PrivateNodeHeader {
            inumber: serializable.inumber,
            ratchet: serializable.ratchet,
            name: Name::new(serializable.name, none),
        }
    }

    /// Gives the name that a stored header has when it is mounted under a parent.
    pub fn mounted_name(decoded: &PrivateNodeHeaderSerializable, parent_name: &Name) -> (name: Name)
        ensures
            name@ == parent_name@.child(decoded@.inumber),
    {
        child_name(parent_name, decoded.inumber)
    }

    /// Loads the header that was stored, and mounts it under a parent if there is one.
    ///
    /// Beside the parent stands the accumulator of the mounted name. It has to be the one that
    /// was stored.
    pub fn load(
        decoded: PrivateNodeHeaderSerializable,
        parent: Option<(&Name, &NameAccumulator)>,
    ) -> (header: Result<PrivateNodeHeader, MountPointAndDeserializedNameMismatch>)
        ensures
            match decoded@.mounted(mount_point(parent)) {
                Ok(mounted) => header matches Ok(header) && header@ == mounted,
                Err((mounted, deserialized)) => header matches Err(mismatch)
                    && mismatch.mounted@ == mounted && mismatch.deserialized@ == deserialized,
            },
    {
        let serialized_name = decoded.name;
        let mut header = Self::from_serializable(decoded);
        if let Some((parent_name, mounted)) = parent {
            if !mounted.same(&serialized_name) {
                return Err(
                    MountPointAndDeserializedNameMismatch {
                        mounted: *mounted,
                        deserialized: serialized_name,
                    },
                );
            }
            header.update_name(parent_name);
        }
        Ok(header)
    }
}

impl Clone for PrivateNodeHeader {
    fn clone(&self) -> (copy: Self)
        ensures
            copy@ == self@,
    {
        PrivateNodeHeader {
            inumber: self.inumber,
            ratchet: self.ratchet.clone(),
            name: self.name.clone(),
        }
    }
}

/// A header that is stored and then loaded keeps its inumber and its ratchet. Mounted under a
/// parent it has the name of the parent's child, and under the parent that it had it comes back
/// as it was. Without a parent its name is the accumulator that was stored, with no segments.
pub proof fn law_stored_header_comes_back(
    header: PrivateNodeHeaderView,
    parent_name: NameView,
    accumulator: Seq<u8>,
)
    ensures
        ({
            let mounted = header.stored(accumulator).mounted(Some((parent_name, accumulator)));
            &&& mounted is Ok
            &&& mounted->Ok_0.inumber == header.inumber
            &&& mounted->Ok_0.ratchet == header.ratchet
            &&& mounted->Ok_0.name == parent_name.child(header.inumber)
            &&& header.name == parent_name.child(header.inumber) ==> mounted->Ok_0 == header
        }),
        ({
            let loaded = header.stored(accumulator).mounted(None);
            &&& loaded is Ok
            &&& loaded->Ok_0.inumber == header.inumber
            &&& loaded->Ok_0.ratchet == header.ratchet
            &&& loaded->Ok_0.name.relative_to == accumulator
            &&& loaded->Ok_0.name.segments.len() == 0
        }),
{
}

/// A header that is mounted where the accumulator of its name is another than the stored one is
/// refused with both.
pub proof fn law_header_is_not_mounted_elsewhere(
    header: PrivateNodeHeaderView,
    parent_name: NameView,
    accumulator: Seq<u8>,
    other: Seq<u8>,
)
    requires
        other != accumulator,
    ensures
        header.stored(accumulator).mounted(Some((parent_name, other)))
            == Err::<PrivateNodeHeaderView, _>((other, accumulator)),
{
}

/// Revisions come and go, and the name and the inumber of the node stay.
pub proof fn law_name_stays_through_revisions(header: PrivateNodeHeaderView)
    ensures
        header.advanced().name == header.name,
        header.advanced().inumber == header.inumber,
        header.revision_name().segments.drop_last() == header.name.segments,
{
    assert(header.revision_name().segments.drop_last() =~= header.name.segments);
}

/// The revisions of a node have the same revision name only where they have the same last
/// segment, which depends on the ratchet alone.
pub proof fn law_revision_names_differ_where_their_segments_do(
    first: PrivateNodeHeaderView,
    second: PrivateNodeHeaderView,
)
    requires
        first.name == second.name,
    ensures
        first.revision_name() == second.revision_name() <==> first.revision_segment()
            == second.revision_segment(),
        first.ratchet == second.ratchet ==> first.revision_segment() == second.revision_segment(),
{
    assert(first.revision_name().segments.last() == first.revision_segment());
    assert(second.revision_name().segments.last() == second.revision_segment());
}

/// A node that is moved under another parent is as if it had been made there.
pub proof fn law_moved_node_is_as_if_made_there(
    first_parent: NameView,
    second_parent: NameView,
    ratchet_seed: Seq<u8>,
    inumber: Seq<u8>,
)
    ensures
        PrivateNodeHeaderView::seeded(first_parent, ratchet_seed, inumber).under(second_parent)
            == PrivateNodeHeaderView::seeded(second_parent, ratchet_seed, inumber),
{
}

/// A new node has the inumber that it was given, is named under its parent by it, and has a ratchet
/// from its seed, whose increments are the first two bytes of a digest.
pub proof fn law_new_header_is_made_of_its_seed(
    parent_name: NameView,
    ratchet_seed: Seq<u8>,
    inumber: Seq<u8>,
)
    ensures
        ({
            let header = PrivateNodeHeaderView::seeded(parent_name, ratchet_seed, inumber);
            let digest = crate::hash::sha3_256(
                vstd::utf8::encode_utf8(RATCHET_INCREMENTS_DSS@) + ratchet_seed,
            );
            &&& header.inumber == inumber
            &&& header.name.relative_to == parent_name.relative_to
            &&& header.name.segments == parent_name.segments.push(inumber)
            &&& header.ratchet == crate::ratchet::ratchet_seeded(
                ratchet_seed,
                digest[0],
                digest[1],
            )
        }),
{
}

/// The next revision of a node has the next state of its ratchet. A revision is named under the
/// node by a segment that its ratchet gives, and its temporal key comes from the ratchet as well,
/// each in a domain of its own.
pub proof fn law_revision_comes_from_the_ratchet(header: PrivateNodeHeaderView)
    ensures
        header.advanced().ratchet == crate::ratchet::ratchet_next(header.ratchet),
        header.revision_name().relative_to == header.name.relative_to,
        header.revision_name().segments == header.name.segments.push(
            crate::ratchet::ratchet_key(header.ratchet, REVISION_SEGMENT_DSS@),
        ),
        header.temporal_key() == crate::ratchet::ratchet_key(header.ratchet, TEMPORAL_KEY_DSS@),
        REVISION_SEGMENT_DSS@ != TEMPORAL_KEY_DSS@,
{
    reveal_strlit("wnfs/1.0/revision segment derivation from ratchet");
    reveal_strlit("wnfs/1.0/temporal key derivation from ratchet");
    assert(REVISION_SEGMENT_DSS@.len() != TEMPORAL_KEY_DSS@.len());
}

/// A node that is moved has the name of its new parent's child, and keeps its inumber and its
/// ratchet.
pub proof fn law_move_changes_the_name_alone(header: PrivateNodeHeaderView, parent_name: NameView)
    ensures
        header.under(parent_name).inumber == header.inumber,
        header.under(parent_name).ratchet == header.ratchet,
        header.under(parent_name).name.relative_to == parent_name.relative_to,
        header.under(parent_name).name.segments == parent_name.segments.push(header.inumber),
{
}

/// A header is stored with its inumber, its ratchet and the accumulator of its name.
pub proof fn law_header_is_stored_with_its_accumulator(
    header: PrivateNodeHeaderView,
    accumulator: Seq<u8>,
)
    ensures
        header.stored(accumulator).inumber == header.inumber,
        header.stored(accumulator).ratchet == header.ratchet,
        header.stored(accumulator).name == accumulator,
{
}

/// A header is seen with its inumber, its ratchet and its name, and so is one that is stored.
pub proof fn law_header_is_seen_field_by_field(
    header: PrivateNodeHeader,
    stored: PrivateNodeHeaderSerializable,
)
    ensures
        header@.inumber == header.inumber@,
        header@.ratchet == crate::ratchet::ratchet_state(header.ratchet),
        header@.name == header.name@,
        stored@.inumber == stored.inumber@,
        stored@.ratchet == crate::ratchet::ratchet_state(stored.ratchet),
        stored@.name == stored.name@,
{
}

/// A mount point is seen with the name of the parent and the accumulator beside it.
pub proof fn law_mount_point_is_seen_as_it_is(parent_name: &Name, accumulator: &NameAccumulator)
    ensures
        mount_point(Some((parent_name, accumulator))) == Some((parent_name@, accumulator@)),
        mount_point(None) is None,
{
}

} // verus!
