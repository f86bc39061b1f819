//! A hash array mapped trie as it is kept: a root node and the version of its format.
//!
//! The node type is a parameter: nothing here looks into a node.

use std::sync::Arc;

use vstd::prelude::*;
use vstd::std_specs::cmp::PartialEqSpec;

use semver::Version;

verus! {

/// `semver::Version`, whose fields stay hidden.
#[verifier::external_type_specification]
#[verifier::external_body]
pub struct ExVersion(semver::Version);

/// What a version holds: its three numbers, its pre-release and its build metadata.
pub uninterp spec fn version_parts(version: semver::Version) -> VersionView;

/// The three numbers of a version, its pre-release and its build metadata.
pub type VersionView = (u64, u64, u64, Seq<char>, Seq<char>);

/// `Version::new`.
///
/// Trusted: the numbers are those given, and there is neither a pre-release nor build metadata.
pub assume_specification[ semver::Version::new ](major: u64, minor: u64, patch: u64) -> (version:
    semver::Version)
    ensures
        version_parts(version) == (major, minor, patch, Seq::<char>::empty(), Seq::<char>::empty()),
;

/// `Version`'s `Clone`, which copies each field.
///
/// Trusted: the copy holds the same.
pub assume_specification[ <semver::Version as Clone>::clone ](version: &semver::Version) -> (copy:
    semver::Version)
    ensures
        version_parts(copy) == version_parts(*version),
;

/// Compares two versions with `Version`'s `==`.
///
/// Trusted: two versions are equal if all that they hold is.
#[verifier::external_body]
fn same_version(left: &Version, right: &Version) -> (same: bool)
    ensures
        same == (version_parts(*left) == version_parts(*right)),
{
    left == right
}

/// What a stored trie says that it is.
pub const HAMT_STRUCTURE: &'static str = "hamt";

/// The version of the format that new tries are in.
fn hamt_version() -> (version: Version)
    ensures
        version_parts(version) == current_version(),
{
    Version::new(0, 1, 0)
}

/// The version of the format that new tries are in.
pub open spec fn current_version() -> VersionView {
    (0, 1, 0, Seq::empty(), Seq::empty())
}

/// A trie: its root node, and the version of the format that it is in.
#[derive(Debug)]
pub struct Hamt<N> {
    pub root: Arc<N>,
    pub version: Version,
}

/// A trie in the form in which it is stored. The root is whatever a node is stored as.
#[derive(Debug)]
pub struct HamtSerializable<S> {
    pub root: S,
    pub version: Version,
    pub structure: String,
}

/// What a `Hamt` holds.
pub struct HamtView<N> {
    pub root: N,
    pub version: VersionView,
}

/// What a `HamtSerializable` holds.
pub struct HamtSerializableView<S> {
    pub root: S,
    pub version: VersionView,
    pub structure: Seq<char>,
}

impl<N> View for Hamt<N> {
    type V = HamtView<N>;

    open spec fn view(&self) -> HamtView<N> {
        HamtView { root: *self.root, version: version_parts(self.version) }
    }
}

impl<S> View for HamtSerializable<S> {
    type V = HamtSerializableView<S>;

    open spec fn view(&self) -> HamtSerializableView<S> {
        HamtSerializableView {
            root: self.root,
            version: version_parts(self.version),
            structure: self.structure@,
        }
    }
}

impl<N> HamtView<N> {
    /// The trie as it is stored, where `root` is what its root node is stored as.
    pub open spec fn stored<S>(self, root: S) -> HamtSerializableView<S> {
        HamtSerializableView { root, version: self.version, structure: HAMT_STRUCTURE@ }
    }
}

impl<S> HamtSerializableView<S> {
    /// The trie that was stored, where `root` is the node that its root was read into.
    pub open spec fn loaded<N>(self, root: N) -> HamtView<N> {
        HamtView { root, version: self.version }
    }
}

/// A trie is stored with what its root is stored as, the version that it is in, and the name of
/// its structure. The version is the one that is loaded again.
pub proof fn law_trie_is_stored_with_its_version<N, S>(hamt: HamtView<N>, root: S, read: N)
    ensures
        hamt.stored(root).root == root,
        hamt.stored(root).version == hamt.version,
        hamt.stored(root).structure == HAMT_STRUCTURE@,
        hamt.stored(root).loaded(read).root == read,
        hamt.stored(root).loaded(read).version == hamt.version,
{
}

/// A trie that is stored and loaded again comes back as it was, if its root node does.
pub proof fn law_stored_trie_comes_back<N, S>(hamt: HamtView<N>, root: S)
    ensures
        hamt.stored(root).loaded(hamt.root) == hamt,
{
}

impl<N> Hamt<N> {
    /// Creates a trie with the given root node.
    pub fn with_root(root: Arc<N>) -> (hamt: Hamt<N>)
        ensures
            hamt@ == (HamtView { root: *root, version: current_version() }),
            hamt@.version == (0u64, 1u64, 0u64, Seq::<char>::empty(), Seq::<char>::empty()),
    {
        Hamt { root, version: hamt_version() }
    }

    /// Gives the trie as it is stored, where `root` is what its root node is stored as.
    pub fn to_serializable<S>(&self, root: S) -> (serializable: HamtSerializable<S>)
        ensures
            serializable@ == self@.stored(root),
    {
        HamtSerializable {
            root,
            version: self.version.clone(),
            structure: HAMT_STRUCTURE.to_owned(),
        }
    }

    /// Gives the trie that was stored, where the root was read already: into a node, or into
    /// the error that reading it gave.
    pub fn from_serializable<E>(serializable: HamtSerializable<Result<N, E>>) -> (hamt: Result<
        Hamt<N>,
        E,
    >)
        ensures
            match serializable.root {
                Ok(root) => hamt matches Ok(hamt) && hamt@ == serializable@.loaded(root),
                Err(error) => hamt matches Err(hamt) && hamt == error,
            },
    {
        match serializable.root {
            Ok(root) => Ok(Hamt { root: Arc::new(root), version: serializable.version }),
            Err(error) => Err(error),
        }
    }
}

impl<N: Default> Hamt<N> {
    /// Creates a trie whose root is the default node.
    pub fn new() -> (hamt: Hamt<N>)
        ensures
            call_ensures(N::default, (), hamt@.root),
            hamt@.version == current_version(),
    {
        Self::with_root(Arc::new(N::default()))
    }
}

impl<N: Default> Default for Hamt<N> {
    fn default() -> (hamt: Self)
        ensures
            call_ensures(N::default, (), hamt@.root),
            hamt@.version == current_version(),
    {
        Self::new()
    }
}

impl<N> Clone for Hamt<N> {
    fn clone(&self) -> (copy: Self)
        ensures
            copy@ == self@,
    {
        Hamt { root: Arc::clone(&self.root), version: self.version.clone() }
    }
}

impl<N: PartialEq> PartialEq for Hamt<N> {
    fn eq(&self, other: &Self) -> (same: bool) {
        *self.root == *other.root && same_version(&self.version, &other.version)
    }
}

impl<N: PartialEq> vstd::std_specs::cmp::PartialEqSpecImpl for Hamt<N> {
    open spec fn obeys_eq_spec() -> bool {
        N::obeys_eq_spec()
    }

    open spec fn eq_spec(&self, other: &Self) -> bool {
        self@.root.eq_spec(&other@.root) && self@.version == other@.version
    }
}

/// Tries are equal exactly if their root nodes and their versions are.
pub proof fn law_tries_differ_where_their_roots_or_versions_do<N: PartialEq>(
    left: Hamt<N>,
    right: Hamt<N>,
)
    ensures
        left@.version != right@.version ==> !left.eq_spec(&right),
        !left@.root.eq_spec(&right@.root) ==> !left.eq_spec(&right),
        left@.version == right@.version && left@.root.eq_spec(&right@.root) ==> left.eq_spec(
            &right,
        ),
{
}

/// A trie is seen with its root node and its version, and so is one that is stored.
pub proof fn law_trie_is_seen_field_by_field<N, S>(hamt: Hamt<N>, stored: HamtSerializable<S>)
    ensures
        hamt@.root == *hamt.root,
        hamt@.version == version_parts(hamt.version),
        stored@.root == stored.root,
        stored@.version == version_parts(stored.version),
        stored@.structure == stored.structure@,
{
}

} // verus!
