//! The forest that holds every private node under the place that references lead to.

use vstd::prelude::*;

use crate::common::{HashOutput, HASH_BYTE_SIZE};
use crate::error::{FsError, FsErrorView};
use crate::private::node::{PrivateNode, PrivateNodeView};
use crate::private::reference::{Locator, PrivateRef, PrivateRefView};

verus! {

/// What is known of one place.
#[derive(Debug, PartialEq, Eq)]
pub struct Slot {
    pub place: Locator,
    pub node: Option<PrivateNode>,
}

/// A node that was set, and the reference to it.
#[derive(Debug, PartialEq, Eq)]
pub struct Write {
    pub private_ref: PrivateRef,
    pub node: PrivateNode,
}

/// What is known of the nodes of a file system.
///
/// A forest without a store holds all there is. A forest with a store holds what was fetched
/// from it so far, and asks for the rest.
///
/// Two forests are equal if the same nodes were loaded into them and set in them in the same
/// order.
#[derive(Debug, PartialEq, Eq)]
pub struct PrivateForest {
    slots: Vec<Slot>,
    writes: Vec<Write>,
    backed: bool,
}

/// What a `PrivateForest` knows.
pub struct PrivateForestView {
    /// The node at each place that is known, or `None` where there is no node.
    pub nodes: Map<(Seq<u8>, Seq<u8>), Option<PrivateNodeView>>,
    /// The nodes that were set, first to last.
    pub writes: Seq<(PrivateRefView, PrivateNodeView)>,
    /// Whether a store holds what is not known.
    pub backed: bool,
}

impl PrivateForestView {
    /// The node that a reference leads to.
    pub open spec fn get(self, private_ref: PrivateRefView) -> Result<
        Option<PrivateNodeView>,
        FsErrorView,
    > {
        if self.nodes.contains_key(private_ref.locator()) {
            Ok(self.nodes[private_ref.locator()])
        } else if self.backed {
            Err(FsErrorView::NotLoaded(private_ref.locator()))
        } else {
            Ok(None)
        }
    }

    /// The forest with `node` where the reference leads to.
    pub open spec fn set(self, private_ref: PrivateRefView, node: PrivateNodeView) -> Self {
        PrivateForestView {
            nodes: self.nodes.insert(private_ref.locator(), Some(node)),
            writes: self.writes.push((private_ref, node)),
            backed: self.backed,
        }
    }

    /// The nodes that were set since the forest was as `earlier`, first to last.
    pub open spec fn written_since(self, earlier: PrivateForestView) -> Seq<
        (PrivateRefView, PrivateNodeView),
    > {
        self.writes.skip(earlier.writes.len() as int)
    }
}

/// The node of a slot.
spec fn node_view(node: Option<PrivateNode>) -> Option<PrivateNodeView> {
    match node {
        Some(node) => Some(node@),
        None => None,
    }
}

/// The map that a list of slots stands for: the last slot of a place counts.
spec fn map_of(slots: Seq<Slot>) -> Map<(Seq<u8>, Seq<u8>), Option<PrivateNodeView>>
    decreases slots.len(),
{
    if slots.len() == 0 {
        Map::empty()
    } else {
        map_of(slots.drop_last()).insert(slots.last().place@, node_view(slots.last().node))
    }
}

impl View for PrivateForest {
    type V = PrivateForestView;

    closed spec fn view(&self) -> PrivateForestView {
        PrivateForestView {
            nodes: map_of(self.slots@),
            writes: self.writes@.map_values(|write: Write| (write.private_ref@, write.node@)),
            backed: self.backed,
        }
    }
}

/// Tells whether two digests are the same.
fn same_digest(left: &HashOutput, right: &HashOutput) -> (same: bool)
    ensures
        same == (left@ == right@),
{
    let mut i: usize = 0;
    while i < HASH_BYTE_SIZE
        invariant
            i <= HASH_BYTE_SIZE,
            forall|j: int| 0 <= j < i ==> left@[j] == right@[j],
        decreases HASH_BYTE_SIZE - i,
    {
        if left[i] != right[i] {
            assert(left@[i as int] != right@[i as int]);
            return false;
        }
        i += 1;
    }
    assert(left@ =~= right@);
    true
}

impl PrivateForest {
    /// Creates an empty forest without a store.
    pub fn new() -> (forest: PrivateForest)
        ensures
            forest@ == (PrivateForestView {
                nodes: Map::empty(),
                writes: Seq::empty(),
                backed: false,
            }),
    {
        let forest = PrivateForest { slots: Vec::new(), writes: Vec::new(), backed: false };
        assert(forest@.writes =~= Seq::empty());
        forest
    }

    /// Creates a forest of which nothing is known yet, with a store behind it.
    pub fn with_store() -> (forest: PrivateForest)
        ensures
            forest@ == (PrivateForestView {
                nodes: Map::empty(),
                writes: Seq::empty(),
                backed: true,
            }),
    {
        let forest = PrivateForest { slots: Vec::new(), writes: Vec::new(), backed: true };
        assert(forest@.writes =~= Seq::empty());
        forest
    }

    /// Gives the node that a reference leads to.
    ///
    /// If it is not known and there is a store, the error says what to fetch.
    pub fn get(&self, private_ref: &PrivateRef) -> (found: Result<Option<PrivateNode>, FsError>)
        ensures
            match self@.get(private_ref@) {
                Ok(Some(node)) => found matches Ok(Some(found)) && found@ == node,
                Ok(None) => found matches Ok(None),
                Err(error) => found matches Err(found) && found@ == error,
            },
    {
        let mut i: usize = self.slots.len();
        assert(self.slots@.take(i as int) =~= self.slots@);
        while i > 0
            invariant
                i <= self.slots@.len(),
                map_of(self.slots@).contains_key(private_ref@.locator()) == map_of(
                    self.slots@.take(i as int),
                ).contains_key(private_ref@.locator()),
                map_of(self.slots@)[private_ref@.locator()] == map_of(
                    self.slots@.take(i as int),
                )[private_ref@.locator()],
            decreases i,
        {
            let slot = &self.slots[i - 1];
            assert(self.slots@.take(i as int).drop_last() =~= self.slots@.take(i - 1));
            if same_digest(&slot.place.saturated_name_hash, &private_ref.saturated_name_hash)
                && same_digest(&slot.place.content_key.0, &private_ref.content_key.0) {
                return Ok(
                    match &slot.node {
                        Some(node) => Some(node.clone()),
                        None => None,
                    },
                );
            }
            i -= 1;
        }
        if self.backed {
            Err(
                FsError::NotLoaded(
                    Locator {
                        saturated_name_hash: private_ref.saturated_name_hash,
                        content_key: private_ref.content_key,
                    },
                ),
            )
        } else {
            Ok(None)
        }
    }

    /// Puts what a store answered at `place` into the forest.
    pub fn learn(&mut self, place: Locator, node: Option<PrivateNode>)
        ensures
            final(self)@ == (PrivateForestView {
                nodes: old(self)@.nodes.insert(
                    place@,
                    match node {
                        Some(node) => Some(node@),
                        None => None,
                    },
                ),
                ..old(self)@
            }),
    {
        self.slots.push(Slot { place, node });
        assert(self.slots@.drop_last() =~= old(self).slots@);
    }

    /// Gives the forest with `node` where the reference leads to.
    pub fn set(&self, private_ref: &PrivateRef, node: PrivateNode) -> (forest: PrivateForest)
        ensures
            forest@ == self@.set(private_ref@, node@),
    {
        let mut forest = self.clone();
        let ghost slots_before = forest.slots@;
        forest.slots.push(
            Slot {
                place: Locator {
                    saturated_name_hash: private_ref.saturated_name_hash,
                    content_key: private_ref.content_key,
                },
                node: Some(node.clone()),
            },
        );
        let ghost before = forest.writes@;
        forest.writes.push(Write { private_ref: private_ref.clone(), node });
        proof {
            let slots = forest.slots@;
            assert(slots.drop_last() =~= slots_before);
            assert(map_of(slots) == map_of(slots.drop_last()).insert(
                slots.last().place@,
                node_view(slots.last().node),
            ));
            assert(forest.writes@.drop_last() =~= before);
            assert(forest@.writes =~= self@.writes.push((private_ref@, node@)));
        }
        forest
    }

    /// Gives the nodes that were set, first to last.
    pub fn writes(&self) -> (writes: &Vec<Write>)
        ensures
            writes@.len() == self@.writes.len(),
            forall|i: int|
                0 <= i < writes@.len() ==> self@.writes[i] == (
                    (#[trigger] writes@[i]).private_ref@,
                    writes@[i].node@,
                ),
    {
        &self.writes
    }
}

impl Clone for PrivateForest {
    fn clone(&self) -> (copy: Self)
        ensures
            copy@ == self@,
    {
        let mut slots: Vec<Slot> = Vec::new();
        let mut i: usize = 0;
        while i < self.slots.len()
            invariant
                i <= self.slots@.len(),
                slots@ == self.slots@.take(i as int),
            decreases self.slots@.len() - i,
        {
            let slot = &self.slots[i];
            slots.push(
                Slot {
                    place: slot.place,
                    node: match &slot.node {
                        Some(node) => Some(node.clone()),
                        None => None,
                    },
                },
            );
            assert(self.slots@.take(i + 1) =~= self.slots@.take(i as int).push(
                self.slots@[i as int],
            ));
            i += 1;
        }
        assert(self.slots@.take(i as int) =~= self.slots@);
        let mut writes: Vec<Write> = Vec::new();
        let mut j: usize = 0;
        while j < self.writes.len()
            invariant
                j <= self.writes@.len(),
                writes@.len() == j,
                forall|k: int|
                    #![trigger writes@[k]]
                    0 <= k < j ==> writes@[k].private_ref@ == self.writes@[k].private_ref@
                        && writes@[k].node@ == self.writes@[k].node@,
            decreases self.writes@.len() - j,
        {
            let write = &self.writes[j];
            writes.push(
                Write { private_ref: write.private_ref.clone(), node: write.node.clone() },
            );
            j += 1;
        }
        let copy = PrivateForest { slots, writes, backed: self.backed };
        assert(copy@.writes =~= self@.writes);
        copy
    }
}

} // verus!
