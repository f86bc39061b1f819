//! The entries of a directory: names, in order, and the nodes that they lead to.

use vstd::prelude::*;

use crate::common::HASH_BYTE_SIZE;
use crate::private::order::{compare_names, NameOrder};
use crate::private::reference::{PrivateRef, PrivateRefView};

verus! {

/// One name in a directory.
#[derive(Debug, PartialEq, Eq)]
pub struct Entry {
    pub name: String,
    pub private_ref: PrivateRef,
}

/// The entries of a directory. No name occurs twice, and names are kept in order.
#[derive(Debug, PartialEq, Eq)]
pub struct Entries {
    list: Vec<Entry>,
}

/// Whether `names` lists the names in `entries`, each once, in ascending order.
pub open spec fn enumerates(
    names: Seq<Seq<char>>,
    entries: Map<Seq<char>, PrivateRefView>,
) -> bool {
    &&& forall|i: int, j: int|
        0 <= i < j < names.len() ==> crate::private::order::name_before(
            #[trigger] names[i],
            #[trigger] names[j],
        )
    &&& forall|name: Seq<char>| entries.contains_key(name) <==> names.contains(name)
}

/// The listing of a directory's names is determined by the directory.
pub proof fn law_one_listing_of_names(
    left: Seq<Seq<char>>,
    right: Seq<Seq<char>>,
    entries: Map<Seq<char>, PrivateRefView>,
)
    requires
        enumerates(left, entries),
        enumerates(right, entries),
    ensures
        left == right,
{
    lemma_same_names(left, right);
}

/// Two ascending listings of the same names are the same.
proof fn lemma_same_names(left: Seq<Seq<char>>, right: Seq<Seq<char>>)
    requires
        forall|i: int, j: int|
            0 <= i < j < left.len() ==> crate::private::order::name_before(
                #[trigger] left[i],
                #[trigger] left[j],
            ),
        forall|i: int, j: int|
            0 <= i < j < right.len() ==> crate::private::order::name_before(
                #[trigger] right[i],
                #[trigger] right[j],
            ),
        forall|name: Seq<char>| left.contains(name) <==> #[trigger] right.contains(name),
    ensures
        left == right,
    decreases left.len(),
{
    if left.len() == 0 {
        if right.len() > 0 {
            assert(right.contains(right[0]));
        }
        assert(left =~= right);
    } else {
        let last = left.last();
        assert(left.contains(last));
        assert(right.contains(last));
        let i = choose|i: int| 0 <= i < right.len() && right[i] == last;
        assert(right.contains(right.last()));
        let j = choose|j: int| 0 <= j < left.len() && left[j] == right.last();
        crate::private::order::lemma_irreflexive(last);
        if i < right.len() - 1 && j < left.len() - 1 {
            crate::private::order::lemma_transitive(last, right.last(), last);
        }
        assert(right.last() == last);
        let fewer = left.drop_last();
        let rest = right.drop_last();
        assert forall|name: Seq<char>| fewer.contains(name) <==> #[trigger] rest.contains(
            name,
        ) by {
            if fewer.contains(name) {
                let k = choose|k: int| 0 <= k < fewer.len() && fewer[k] == name;
                assert(left[k] == name);
                assert(left.contains(name));
                assert(right.contains(name));
                let m = choose|m: int| 0 <= m < right.len() && right[m] == name;
                assert(m < rest.len());
                assert(rest[m] == name);
            }
            if rest.contains(name) {
                let k = choose|k: int| 0 <= k < rest.len() && rest[k] == name;
                assert(right[k] == name);
                assert(right.contains(name));
                assert(left.contains(name));
                let m = choose|m: int| 0 <= m < left.len() && left[m] == name;
                assert(m < fewer.len());
                assert(fewer[m] == name);
            }
        }
        lemma_same_names(fewer, rest);
        assert(left =~= fewer.push(last));
        assert(right =~= rest.push(last));
    }
}

/// Names ascend, so none occurs twice.
spec fn ascending(list: Seq<Entry>) -> bool {
    forall|i: int, j: int|
        #![trigger list[i], list[j]]
        0 <= i < j < list.len() ==> crate::private::order::name_before(
            list[i].name@,
            list[j].name@,
        )
}

/// Whether `name` is the name of the entry at `index`.
spec fn named_at(list: Seq<Entry>, name: Seq<char>, index: int) -> bool {
    0 <= index < list.len() && list[index].name@ == name
}

/// The map that a list of entries stands for.
spec fn map_of(list: Seq<Entry>) -> Map<Seq<char>, PrivateRefView> {
    Map::new(
        |name: Seq<char>| exists|i: int| named_at(list, name, i),
        |name: Seq<char>| list[choose|i: int| named_at(list, name, i)].private_ref@,
    )
}

impl View for Entries {
    type V = Map<Seq<char>, PrivateRefView>;

    closed spec fn view(&self) -> Map<Seq<char>, PrivateRefView> {
        map_of(self.list@)
    }
}

/// An entry is found under its name and under no other.
proof fn lemma_at(list: Seq<Entry>, index: int)
    requires
        ascending(list),
        0 <= index < list.len(),
    ensures
        map_of(list).contains_key(list[index].name@),
        map_of(list)[list[index].name@] == list[index].private_ref@,
{
    let name = list[index].name@;
    assert(named_at(list, name, index));
    let found = choose|i: int| named_at(list, name, i);
    crate::private::order::lemma_irreflexive(name);
    assert(named_at(list, name, found));
    assert(found == index);
}

impl Entries {
    #[verifier::type_invariant]
    spec fn well_formed(self) -> bool {
        ascending(self.list@)
    }

    /// The names, in the order in which they are listed.
    pub closed spec fn names(&self) -> Seq<Seq<char>> {
        self.list@.map_values(|entry: Entry| entry.name@)
    }

    /// Every name leads to a place that two digests give.
    pub proof fn lemma_digests(&self)
        ensures
            forall|name: Seq<char>| #[trigger]
                self@.contains_key(name) ==> self@[name].saturated_name_hash.len()
                    == HASH_BYTE_SIZE && self@[name].content_key.len() == HASH_BYTE_SIZE,
    {
    }

    /// Creates a directory listing without entries.
    pub fn new() -> (entries: Entries)
        ensures
            entries@ == Map::<Seq<char>, PrivateRefView>::empty(),
    {
        let entries = Entries { list: Vec::new() };
        assert(entries@ =~= Map::<Seq<char>, PrivateRefView>::empty()) by {
            assert forall|name: Seq<char>| !entries@.contains_key(name) by {
                if exists|i: int| named_at(entries.list@, name, i) {
                    let i = choose|i: int| named_at(entries.list@, name, i);
                    assert(named_at(entries.list@, name, i));
                }
            }
        }
        entries
    }

    /// Gives the number of entries.
    ///
    /// The names are those that lead somewhere, and they are listed in ascending order.
    pub fn len(&self) -> (count: usize)
        ensures
            count == self.names().len(),
            enumerates(self.names(), self@),
    {
        proof {
            use_type_invariant(self);
            assert forall|name: Seq<char>| self@.contains_key(name) implies self.names().contains(
                name,
            ) by {
                let i = choose|i: int| named_at(self.list@, name, i);
                assert(named_at(self.list@, name, i));
                assert(self.names()[i] == name);
            }
            assert forall|name: Seq<char>| self.names().contains(name) implies self@.contains_key(
                name,
            ) by {
                let i = choose|i: int| 0 <= i < self.names().len() && self.names()[i] == name;
                lemma_at(self.list@, i);
            }
        }
        self.list.len()
    }

    /// Finds the first position whose name does not come before `name`.
    fn position(&self, name: &str) -> (index: usize)
        ensures
            index <= self.list@.len(),
            forall|i: int|
                0 <= i < index ==> crate::private::order::name_before(self.list@[i].name@, name@),
            forall|i: int|
                index < i < self.list@.len() ==> crate::private::order::name_before(
                    name@,
                    self.list@[i].name@,
                ),
            index < self.list@.len() ==> self.list@[index as int].name@ == name@
                || crate::private::order::name_before(name@, self.list@[index as int].name@),
    {
        proof {
            use_type_invariant(self);
        }
        let mut index: usize = 0;
        while index < self.list.len()
            invariant
                index <= self.list@.len(),
                ascending(self.list@),
                forall|i: int|
                    0 <= i < index ==> crate::private::order::name_before(
                        self.list@[i].name@,
                        name@,
                    ),
            ensures
                index <= self.list@.len(),
                forall|i: int|
                    0 <= i < index ==> crate::private::order::name_before(
                        self.list@[i].name@,
                        name@,
                    ),
                index < self.list@.len() ==> self.list@[index as int].name@ == name@
                    || crate::private::order::name_before(name@, self.list@[index as int].name@),
            decreases self.list@.len() - index,
        {
            match compare_names(self.list[index].name.as_str(), name) {
                NameOrder::Before => {
                    index += 1;
                },
                _ => {
                    break;
                },
            }
        }
        proof {
            assert forall|i: int| index < i < self.list@.len() implies
                crate::private::order::name_before(name@, self.list@[i].name@) by {
                let at = self.list@[index as int].name@;
                let next = self.list@[i].name@;
                if at != name@ {
                    crate::private::order::lemma_transitive(name@, at, next);
                }
            }
        }
        index
    }

    /// Gives the reference under `name`, if there is one.
    pub fn get(&self, name: &str) -> (found: Option<&PrivateRef>)
        ensures
            match found {
                Some(found) => self@.contains_key(name@) && found@ == self@[name@],
                None => !self@.contains_key(name@),
            },
    {
        proof {
            use_type_invariant(self);
        }
        let index = self.position(name);
        if index < self.list.len() {
            match compare_names(self.list[index].name.as_str(), name) {
                NameOrder::Same => {
                    proof {
                        lemma_at(self.list@, index as int);
                    }
                    return Some(&self.list[index].private_ref);
                },
                _ => {},
            }
        }
        proof {
            if self@.contains_key(name@) {
                let i = choose|i: int| named_at(self.list@, name@, i);
                assert(named_at(self.list@, name@, i));
                crate::private::order::lemma_irreflexive(name@);
            }
        }
        None
    }

    /// Gives the name and the reference at `index` of the listing.
    pub fn entry(&self, index: usize) -> (entry: &Entry)
        requires
            index < self.names().len(),
        ensures
            entry.name@ == self.names()[index as int],
            self@.contains_key(entry.name@),
            entry.private_ref@ == self@[entry.name@],
    {
        proof {
            use_type_invariant(self);
            lemma_at(self.list@, index as int);
        }
        &self.list[index]
    }

    /// Puts `private_ref` under `name`, in place of what was there.
    pub fn insert(&mut self, name: String, private_ref: PrivateRef)
        ensures
            final(self)@ == old(self)@.insert(name@, private_ref@),
    {
        proof {
            use_type_invariant(&*self);
        }
        let index = self.position(name.as_str());
        let mut list: Vec<Entry> = Vec::new();
        std::mem::swap(&mut list, &mut self.list);
        let ghost before = list@;
        let ghost key = name@;
        let ghost value = private_ref@;
        let mut replaced = false;
        if index < list.len() {
            match compare_names(list[index].name.as_str(), name.as_str()) {
                NameOrder::Same => {
                    replaced = true;
                },
                _ => {},
            }
        }
        let entry = Entry { name, private_ref };
        if replaced {
            list.set(index, entry);
        } else {
            list.insert(index, entry);
        }
        proof {
            let after = list@;
            assert(ascending(after)) by {
                assert forall|i: int, j: int| 0 <= i < j < after.len() implies
                    crate::private::order::name_before(after[i].name@, after[j].name@) by {
                    let _ = before[i];
                    let _ = before[j];
                    let _ = before[i - 1];
                    let _ = before[j - 1];
                }
            }
            lemma_at(after, index as int);
            assert forall|k: Seq<char>| #[trigger]
                map_of(after).contains_key(k) == map_of(before).insert(key, value).contains_key(
                    k,
                ) && (map_of(after).contains_key(k) ==> map_of(after)[k] == map_of(before).insert(
                key,
                value,
            )[k]) by {
                if k != key {
                    let shift: int = if replaced { 0 } else { 1 };
                    if map_of(after).contains_key(k) {
                        let i = choose|i: int| named_at(after, k, i);
                        assert(named_at(after, k, i));
                        let was = if i < index { i } else { i - shift };
                        assert(before[was] == after[i]);
                        lemma_at(after, i);
                        lemma_at(before, was);
                    }
                    if map_of(before).contains_key(k) {
                        let i = choose|i: int| named_at(before, k, i);
                        assert(named_at(before, k, i));
                        let is = if i < index { i } else { i + shift };
                        assert(after[is] == before[i]);
                        lemma_at(after, is);
                    }
                }
            }
            assert(map_of(after) =~= map_of(before).insert(key, value));
        }
        self.list = list;
    }

    /// Takes the entry under `name` out, and gives the reference that was there.
    pub fn remove(&mut self, name: &str) -> (removed: Option<PrivateRef>)
        ensures
            final(self)@ == old(self)@.remove(name@),
            match removed {
                Some(removed) => old(self)@.contains_key(name@) && removed@ == old(self)@[name@],
                None => !old(self)@.contains_key(name@),
            },
    {
        proof {
            use_type_invariant(&*self);
        }
        let found = self.get(name).is_some();
        if !found {
            assert(self@.remove(name@) =~= self@);
            return None;
        }
        let index = self.position(name);
        let mut list: Vec<Entry> = Vec::new();
        std::mem::swap(&mut list, &mut self.list);
        let ghost before = list@;
        proof {
            let i = choose|i: int| named_at(before, name@, i);
            assert(named_at(before, name@, i));
            crate::private::order::lemma_irreflexive(name@);
            assert(i == index);
            lemma_at(before, index as int);
        }
        let entry = list.remove(index);
        proof {
            let after = list@;
            let key = name@;
            crate::private::order::lemma_irreflexive(key);
            assert forall|i: int| 0 <= i < after.len() implies after[i] == before[if i < index {
                i
            } else {
                i + 1
            }] by {}
            assert forall|k: Seq<char>| #[trigger]
                map_of(after).contains_key(k) == map_of(before).remove(key).contains_key(k) && (
            map_of(after).contains_key(k) ==> map_of(after)[k] == map_of(before).remove(
                key,
            )[k]) by {
                if map_of(after).contains_key(k) {
                    let i = choose|i: int| named_at(after, k, i);
                    assert(named_at(after, k, i));
                    let was = if i < index { i } else { i + 1 };
                    assert(before[was] == after[i]);
                    lemma_at(after, i);
                    lemma_at(before, was);
                    assert(k != key);
                }
                if k != key && map_of(before).contains_key(k) {
                    let i = choose|i: int| named_at(before, k, i);
                    assert(named_at(before, k, i));
                    let is = if i < index { i } else { i - 1 };
                    assert(after[is] == before[i]);
                    lemma_at(after, is);
                }
            }
            assert(map_of(after) =~= map_of(before).remove(key));
        }
        self.list = list;
        Some(entry.private_ref)
    }
}

impl Clone for Entries {
    fn clone(&self) -> (copy: Self)
        ensures
            copy@ == self@,
            copy.names() == self.names(),
    {
        proof {
            use_type_invariant(self);
        }
        let mut list: Vec<Entry> = Vec::new();
        let mut i: usize = 0;
        while i < self.list.len()
            invariant
                i <= self.list@.len(),
                list@.len() == i,
                forall|j: int|
                    #![trigger list@[j]]
                    #![trigger self.list@[j]]
                    0 <= j < i ==> list@[j].name@ == self.list@[j].name@ && list@[j].private_ref@
                        == self.list@[j].private_ref@,
            decreases self.list@.len() - i,
        {
            list.push(
                Entry {
                    name: self.list[i].name.clone(),
                    private_ref: self.list[i].private_ref.clone(),
                },
            );
            i += 1;
        }
        proof {
            let ours = self.list@;
            let theirs = list@;
            assert(ascending(theirs)) by {
                assert forall|i: int, j: int| 0 <= i < j < theirs.len() implies
                    crate::private::order::name_before(theirs[i].name@, theirs[j].name@) by {
                    assert(theirs[i].name@ == ours[i].name@);
                    assert(theirs[j].name@ == ours[j].name@);
                }
            }
            assert forall|k: Seq<char>| #[trigger]
                map_of(theirs).contains_key(k) == map_of(ours).contains_key(k) && (map_of(
                theirs,
            ).contains_key(k) ==> map_of(theirs)[k] == map_of(ours)[k]) by {
                if map_of(theirs).contains_key(k) {
                    let i = choose|i: int| named_at(theirs, k, i);
                    assert(named_at(theirs, k, i));
                    lemma_at(theirs, i);
                    lemma_at(ours, i);
                }
                if map_of(ours).contains_key(k) {
                    let i = choose|i: int| named_at(ours, k, i);
                    assert(named_at(ours, k, i));
                    lemma_at(theirs, i);
                }
            }
            assert(map_of(theirs) =~= map_of(ours));
        }
        let copy = Entries { list };
        assert(copy.names() =~= self.names());
        copy
    }
}

} // verus!
