//! Names of private nodes.

use vstd::prelude::*;

use crate::common::{HashOutput, HASH_BYTE_SIZE};
use crate::hash::{Hasher, Sha3_256};

verus! {

/// The name of a private node: the elements that were added to it, first to last.
///
/// The bare name of a node holds the inumbers on the way to it from the root of its tree.
#[derive(Debug, PartialEq, Eq)]
pub struct Namefilter {
    elements: Vec<HashOutput>,
}

impl View for Namefilter {
    type V = Seq<Seq<u8>>;

    closed spec fn view(&self) -> Seq<Seq<u8>> {
        self.elements@.map_values(|element: HashOutput| element@)
    }
}

impl Namefilter {
    /// Adds an element to the name.
    pub fn add(&mut self, element: &HashOutput)
        ensures
            final(self)@ == old(self)@.push(element@),
    {
        self.elements.push(*element);
        assert(self@ =~= old(self)@.push(element@));
    }

    /// Gives the number of elements.
    pub fn len(&self) -> (count: usize)
        ensures
            count == self@.len(),
    {
        self.elements.len()
    }

    /// Every element of a name is a digest.
    pub proof fn lemma_elements(&self)
        ensures
            forall|i: int| 0 <= i < self@.len() ==> (#[trigger] self@[i]).len() == HASH_BYTE_SIZE,
    {
    }

    /// Gives one element of the name.
    pub fn element(&self, index: usize) -> (element: &HashOutput)
        requires
            index < self@.len(),
        ensures
            element@ == self@[index as int],
    {
        &self.elements[index]
    }

    /// Hashes the elements of the name, one after the other.
    pub fn hash(&self) -> (digest: HashOutput)
        ensures
            digest@ == crate::hash::sha3_256(self@.flatten()),
    {
        let mut bytes: Vec<u8> = Vec::new();
        let mut i: usize = 0;
        assert(self@.take(0).flatten() =~= Seq::<u8>::empty());
        while i < self.elements.len()
            invariant
                i <= self.elements@.len(),
                bytes@ == self@.take(i as int).flatten(),
            decreases self.elements@.len() - i,
        {
            bytes.extend_from_slice(self.elements[i].as_slice());
            proof {
                let element = self@[i as int];
                assert(self@.take(i + 1) =~= self@.take(i as int).push(element));
                self@.take(i as int).lemma_flatten_push(element);
            }
            i += 1;
        }
        assert(self@.take(i as int) =~= self@);
        Sha3_256::hash(bytes.as_slice())
    }
}

impl Default for Namefilter {
    /// Creates a name without elements.
    fn default() -> (name: Self)
        ensures
            name@ == Seq::<Seq<u8>>::empty(),
    {
        let name = Namefilter { elements: Vec::new() };
        assert(name@ =~= Seq::<Seq<u8>>::empty());
        name
    }
}

impl Clone for Namefilter {
    fn clone(&self) -> (copy: Self)
        ensures
            copy@ == self@,
    {
        let mut elements: Vec<HashOutput> = Vec::new();
        let mut i: usize = 0;
        while i < self.elements.len()
            invariant
                i <= self.elements@.len(),
                elements@ == self.elements@.take(i as int),
            decreases self.elements@.len() - i,
        {
            elements.push(self.elements[i]);
            assert(self.elements@.take(i + 1) =~= self.elements@.take(i as int).push(
                self.elements@[i as int],
            ));
            i += 1;
        }
        assert(self.elements@.take(i as int) =~= self.elements@);
        Namefilter { elements }
    }
}

} // verus!
