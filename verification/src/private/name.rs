//! Names that a name accumulator commits to.

use vstd::prelude::*;

use num_bigint_dig::BigUint;

use crate::common::{HashOutput, Rng, HASH_BYTE_SIZE};
use crate::uint256_serde_le::{serialize, UINT_BYTE_SIZE};

verus! {

/// One segment of a name.
#[derive(Clone, Copy, Debug, PartialEq, Eq)]
pub struct NameSegment(pub HashOutput);

impl View for NameSegment {
    type V = Seq<u8>;

    open spec fn view(&self) -> Seq<u8> {
        self.0@
    }
}

impl NameSegment {
    /// Creates a random segment: the bytes that one draw of a digest's length gives.
    pub fn new<R: Rng>(rng: &R) -> (segment: NameSegment)
        ensures
            call_ensures(R::random_bytes::<HASH_BYTE_SIZE>, (rng,), segment.0),
    {
        NameSegment(rng.random_bytes::<HASH_BYTE_SIZE>())
    }

    /// Creates the segment that a digest stands for.
    pub fn from_digest(digest: HashOutput) -> (segment: NameSegment)
        ensures
            segment@ == digest@,
    {
        NameSegment(digest)
    }
}

/// What commits to a name: the state of an accumulator in its fixed-width form.
#[derive(Clone, Copy, Debug, PartialEq, Eq)]
pub struct NameAccumulator(pub [u8; UINT_BYTE_SIZE]);

impl View for NameAccumulator {
    type V = Seq<u8>;

    open spec fn view(&self) -> Seq<u8> {
        self.0@
    }
}

impl NameAccumulator {
    /// Creates an accumulator with the given state, or `None` if the state is too large for
    /// the fixed-width form.
    pub fn from_state(state: &BigUint) -> (accumulator: Option<NameAccumulator>)
        ensures
            match accumulator {
                Some(accumulator) => crate::uint256_serde_le::le_value(accumulator@)
                    == crate::uint256_serde_le::biguint_value(*state),
                None => crate::uint256_serde_le::biguint_value(*state)
                    >= crate::uint256_serde_le::uint_bound(),
            },
    {
        match serialize(state) {
            Some(bytes) => Some(NameAccumulator(bytes)),
            None => None,
        }
    }

    /// Tells whether two accumulators are the same.
    pub fn same(&self, other: &NameAccumulator) -> (same: bool)
        ensures
            same == (self@ == other@),
    {
        let mut i: usize = 0;
        while i < UINT_BYTE_SIZE
            invariant
                i <= UINT_BYTE_SIZE,
                forall|j: int| 0 <= j < i ==> self.0@[j] == other.0@[j],
            decreases UINT_BYTE_SIZE - i,
        {
            if self.0[i] != other.0[i] {
                assert(self@[i as int] != other@[i as int]);
                return false;
            }
            i += 1;
        }
        assert(self@ =~= other@);
        true
    }
}

/// The name of a node: a name that an accumulator commits to, and the segments below it.
#[derive(Debug, PartialEq, Eq)]
pub struct Name {
    pub relative_to: NameAccumulator,
    pub segments: Vec<NameSegment>,
}

/// What a `Name` holds.
pub struct NameView {
    pub relative_to: Seq<u8>,
    pub segments: Seq<Seq<u8>>,
}

impl NameView {
    /// The name one segment further down.
    pub open spec fn child(self, segment: Seq<u8>) -> NameView {
        NameView { segments: self.segments.push(segment), ..self }
    }
}

/// The segments of a name.
pub open spec fn segment_views(segments: Seq<NameSegment>) -> Seq<Seq<u8>> {
    segments.map_values(|segment: NameSegment| segment@)
}

impl View for Name {
    type V = NameView;

    open spec fn view(&self) -> NameView {
        NameView { relative_to: self.relative_to@, segments: segment_views(self.segments@) }
    }
}

impl Name {
    /// Creates a name from an accumulator and the segments below it.
    pub fn new(relative_to: NameAccumulator, segments: Vec<NameSegment>) -> (name: Name)
        ensures
            name@ == (NameView {
                relative_to: relative_to@,
                segments: segment_views(segments@),
            }),
    {
        Name { relative_to, segments }
    }

    /// Adds segments to the end of the name.
    pub fn add_segments(&mut self, segments: &[NameSegment])
        ensures
            final(self)@ == (NameView {
                segments: old(self)@.segments + segment_views(segments@),
                ..old(self)@
            }),
    {
        self.segments.extend_from_slice(segments);
        assert(segment_views(self.segments@) =~= segment_views(old(self).segments@)
            + segment_views(segments@));
    }

    /// Gives the name with segments added to its end.
    pub fn with_segments_added(&self, segments: &[NameSegment]) -> (name: Name)
        ensures
            name@ == (NameView {
                segments: self@.segments + segment_views(segments@),
                ..self@
            }),
    {
        let mut name = self.clone();
        name.add_segments(segments);
        name
    }
}

impl Clone for Name {
    fn clone(&self) -> (copy: Self)
        ensures
            copy@ == self@,
    {
        let mut segments: Vec<NameSegment> = Vec::new();
        segments.extend_from_slice(self.segments.as_slice());
        assert(segments@ =~= self.segments@);
        Name { relative_to: self.relative_to, segments }
    }
}

} // verus!
