//! Operations on the directory tree.

use std::rc::Rc;

use vstd::prelude::*;

use crate::common::{HashOutput, Rng, DOUBLE_SIZE, HASH_BYTE_SIZE};
use crate::error::{FsError, FsErrorView};
use crate::private::directory::{PrivateDirectory, PrivateDirectoryView};
use crate::private::forest::{PrivateForest, PrivateForestView};
use crate::private::metadata::{Metadata, UnixFsNodeKind};
use crate::private::namefilter::Namefilter;
use crate::private::node::{
    PrivateFile, PrivateFileContentView, PrivateFileView, PrivateNode, PrivateNodeHeader,
    PrivateNodeView,
};
use crate::private::path::{
    PathNodes, PathNodesResult, PathNodesResultView, PathNodesView, PrivatePathNodes,
    PrivatePathNodesResult, SeedView,
};
use crate::private::reference::copy_bytes;

verus! {

/// The seeds in a list of pairs of digests.
pub open spec fn seed_views(seeds: Seq<(HashOutput, HashOutput)>) -> Seq<SeedView> {
    seeds.map_values(|seed: (HashOutput, HashOutput)| (seed.0@, seed.1@))
}

/// The outcome of an operation that changes the tree.
#[derive(Debug, PartialEq, Eq)]
pub struct PrivateOpResult<T> {
    /// The root directory after the operation.
    pub root_dir: Rc<PrivateDirectory>,
    /// The forest after the operation.
    pub hamt: Rc<PrivateForest>,
    /// What the operation was asked for.
    pub result: T,
}

impl<T: Clone> Clone for PrivateOpResult<T> {
    fn clone(&self) -> (copy: Self)
        ensures
            copy.root_dir == self.root_dir,
            copy.hamt == self.hamt,
            cloned(self.result, copy.result),
    {
        PrivateOpResult {
            root_dir: Rc::clone(&self.root_dir),
            hamt: Rc::clone(&self.hamt),
            result: self.result.clone(),
        }
    }
}

impl PrivateDirectoryView {
    /// The node at the end of a path.
    pub open spec fn node_at(self, segments: Seq<Seq<char>>, forest: PrivateForestView) -> Result<
        Option<PrivateNodeView>,
        FsErrorView,
    > {
        if segments.len() == 0 {
            Ok(Some(PrivateNodeView::Dir(self)))
        } else {
            match self.walk(segments.drop_last(), forest) {
                Ok(PathNodesResultView::Complete(nodes)) => nodes.tail.lookup(
                    segments.last(),
                    forest,
                ),
                Ok(_) => Err(FsErrorView::Plain(FsError::NotFound)),
                Err(error) => Err(error),
            }
        }
    }

    /// The content of the file at the end of a path.
    pub open spec fn content_at(
        self,
        segments: Seq<Seq<char>>,
        forest: PrivateForestView,
    ) -> Result<Seq<u8>, FsErrorView> {
        if segments.len() == 0 {
            Err(FsErrorView::Plain(FsError::InvalidPath))
        } else {
            match self.node_at(segments, forest) {
                Ok(Some(PrivateNodeView::File(file))) => Ok(file.content.content),
                Ok(Some(PrivateNodeView::Dir(_))) => Err(FsErrorView::Plain(FsError::NotAFile)),
                Ok(None) => Err(FsErrorView::Plain(FsError::NotFound)),
                Err(error) => Err(error),
            }
        }
    }

    /// The root and the forest after directories were made along a path.
    pub open spec fn after_mkdir(
        self,
        segments: Seq<Seq<char>>,
        time: i64,
        forest: PrivateForestView,
        seeds: Seq<SeedView>,
    ) -> Result<(PrivateDirectoryView, PrivateForestView), FsErrorView> {
        match self.completed(segments, time, forest, seeds) {
            Ok(nodes) => Ok(nodes.fixed_up(forest)),
            Err(error) => Err(error),
        }
    }

    /// Whether no node is under a name in the directory.
    pub open spec fn has_no(self, name: Seq<char>, forest: PrivateForestView) -> bool {
        self.lookup(name, forest) == Ok::<_, FsErrorView>(None::<PrivateNodeView>)
    }

    /// The file that is put under a name in the directory: the one that is there, with other
    /// content, or else a new one.
    pub open spec fn file_to_put(
        self,
        name: Seq<char>,
        time: i64,
        content: Seq<u8>,
        forest: PrivateForestView,
        seed: SeedView,
    ) -> Result<PrivateFileView, FsErrorView> {
        match self.lookup(name, forest) {
            Ok(Some(PrivateNodeView::File(before))) => Ok(
                PrivateFileView {
                    header: before.header,
                    content: PrivateFileContentView {
                        metadata: Metadata::created_at(time, UnixFsNodeKind::File),
                        content,
                    },
                },
            ),
            Ok(Some(PrivateNodeView::Dir(_))) => Err(
                FsErrorView::Plain(FsError::DirectoryAlreadyExists),
            ),
            Ok(None) => Ok(
                PrivateFileView::fresh(self.header.bare_name, seed.0, seed.1, time, content),
            ),
            Err(error) => Err(error),
        }
    }
}

impl PathNodesView {
    /// The root and the forest after a file was put under a name in the last directory of a
    /// path.
    pub open spec fn with_file(
        self,
        name: Seq<char>,
        file: PrivateFileView,
        forest: PrivateForestView,
    ) -> (PrivateDirectoryView, PrivateForestView) {
        let private_ref = file.header.private_ref();
        PathNodesView { path: self.path, tail: self.tail.with_entry(name, private_ref) }.fixed_up(
            forest.set(private_ref, PrivateNodeView::File(file)),
        )
    }
}

impl PrivateDirectoryView {
    /// The root and the forest after a file was written at the end of a path.
    ///
    /// The seeds are those of the directories that are made on the way; `file_seed` is that of
    /// the file.
    pub open spec fn after_write(
        self,
        segments: Seq<Seq<char>>,
        time: i64,
        content: Seq<u8>,
        forest: PrivateForestView,
        seeds: Seq<SeedView>,
        file_seed: SeedView,
    ) -> Result<(PrivateDirectoryView, PrivateForestView), FsErrorView> {
        if segments.len() == 0 {
            Err(FsErrorView::Plain(FsError::InvalidPath))
        } else {
            match self.completed(segments.drop_last(), time, forest, seeds) {
                Ok(nodes) => match nodes.tail.file_to_put(
                    segments.last(),
                    time,
                    content,
                    forest,
                    file_seed,
                ) {
                    Ok(file) => Ok(nodes.with_file(segments.last(), file, forest)),
                    Err(error) => Err(error),
                },
                Err(error) => Err(error),
            }
        }
    }

    /// Whether a write to the end of a path makes a new file there.
    pub open spec fn makes_file(
        self,
        segments: Seq<Seq<char>>,
        time: i64,
        forest: PrivateForestView,
        seeds: Seq<SeedView>,
    ) -> bool {
        self.completed(segments.drop_last(), time, forest, seeds) matches Ok(nodes)
            && nodes.tail.has_no(segments.last(), forest)
    }

    /// Whether a path ends in a name that leads to no node.
    pub open spec fn dangles(self, segments: Seq<Seq<char>>, forest: PrivateForestView) -> bool {
        &&& segments.len() > 0
        &&& self.walk(segments.drop_last(), forest) matches Ok(
            PathNodesResultView::Complete(nodes),
        )
        &&& nodes.tail.content.entries.contains_key(segments.last())
        &&& nodes.tail.has_no(segments.last(), forest)
    }

    /// The root, the forest and the removed node after the name at the end of a path was taken
    /// out of its directory.
    pub open spec fn after_rm(self, segments: Seq<Seq<char>>, forest: PrivateForestView) -> Result<
        (PrivateDirectoryView, PrivateForestView, PrivateNodeView),
        FsErrorView,
    > {
        if segments.len() == 0 {
            Err(FsErrorView::Plain(FsError::InvalidPath))
        } else {
            match self.walk(segments.drop_last(), forest) {
                Ok(PathNodesResultView::Complete(nodes)) => match nodes.tail.lookup(
                    segments.last(),
                    forest,
                ) {
                    Ok(Some(removed)) => {
                        let (root_dir, after) = PathNodesView {
                            path: nodes.path,
                            tail: nodes.tail.without_entry(segments.last()),
                        }.fixed_up(forest);
                        Ok((root_dir, after, removed))
                    },
                    Ok(None) => Err(FsErrorView::Plain(FsError::NotFound)),
                    Err(error) => Err(error),
                },
                Ok(_) => Err(FsErrorView::Plain(FsError::NotFound)),
                Err(error) => Err(error),
            }
        }
    }

    /// The listing of a directory, name by name, or the error at the first name that leads
    /// nowhere.
    pub open spec fn listed(self, names: Seq<Seq<char>>, forest: PrivateForestView) -> Result<
        Seq<(Seq<char>, Metadata)>,
        FsErrorView,
    >
        decreases names.len(),
    {
        if names.len() == 0 {
            Ok(Seq::empty())
        } else {
            match self.listed(names.drop_last(), forest) {
                Ok(list) => match self.lookup(names.last(), forest) {
                    Ok(Some(node)) => Ok(list.push((names.last(), node.metadata()))),
                    Ok(None) => Err(FsErrorView::Plain(FsError::NotFound)),
                    Err(error) => Err(error),
                },
                Err(error) => Err(error),
            }
        }
    }

    /// The listing of the directory at the end of a path. The names in it are `names`, if the
    /// path leads there.
    pub open spec fn listed_at(
        self,
        segments: Seq<Seq<char>>,
        forest: PrivateForestView,
        names: Seq<Seq<char>>,
    ) -> Result<Seq<(Seq<char>, Metadata)>, FsErrorView> {
        match self.walk(segments, forest) {
            Ok(PathNodesResultView::Complete(nodes)) => nodes.tail.listed(names, forest),
            Ok(_) => Err(FsErrorView::Plain(FsError::NotFound)),
            Err(error) => Err(error),
        }
    }

    /// Whether `names` are the names in the directory at the end of a path, in ascending
    /// order, if the path leads to one.
    pub open spec fn names_at(
        self,
        segments: Seq<Seq<char>>,
        forest: PrivateForestView,
        names: Seq<Seq<char>>,
    ) -> bool {
        self.walk(segments, forest) matches Ok(PathNodesResultView::Complete(nodes))
            ==> crate::private::entries::enumerates(names, nodes.tail.content.entries)
    }
}

/// The pairs in a listing.
pub open spec fn listing(list: Seq<(String, Metadata)>) -> Seq<(Seq<char>, Metadata)> {
    list.map_values(|item: (String, Metadata)| (item.0@, item.1))
}

impl PrivateDirectory<PrivateNodeHeader> {
    /// Splits bytes into two digests.
    pub fn split_double(bytes: &[u8; DOUBLE_SIZE]) -> (pair: (HashOutput, HashOutput))
        ensures
            pair.0@ == bytes@.take(HASH_BYTE_SIZE as int),
            pair.1@ == bytes@.skip(HASH_BYTE_SIZE as int),
    {
        let mut first: HashOutput = [0u8; HASH_BYTE_SIZE];
        let mut second: HashOutput = [0u8; HASH_BYTE_SIZE];
        let mut i: usize = 0;
        while i < HASH_BYTE_SIZE
            invariant
                i <= HASH_BYTE_SIZE,
                forall|j: int| 0 <= j < i ==> first@[j] == bytes@[j],
                forall|j: int| 0 <= j < i ==> second@[j] == bytes@[j + HASH_BYTE_SIZE],
            decreases HASH_BYTE_SIZE - i,
        {
            first[i] = bytes[i];
            second[i] = bytes[i + HASH_BYTE_SIZE];
            i += 1;
        }
        assert(first@ =~= bytes@.take(HASH_BYTE_SIZE as int));
        assert(second@ =~= bytes@.skip(HASH_BYTE_SIZE as int));
        (first, second)
    }

    /// Generates two random digests: the halves of bytes that are drawn at once.
    pub fn generate_double_random<R: Rng>(rng: &R) -> (pair: (HashOutput, HashOutput))
        ensures
            crate::private::path::is_drawn(rng, (pair.0@, pair.1@)),
    {
        let bytes: [u8; DOUBLE_SIZE] = rng.random_bytes::<DOUBLE_SIZE>();
        Self::split_double(&bytes)
    }

    /// Moves on to the next revision.
    pub fn advance_ratchet(&mut self)
        ensures
            final(self)@ == old(self)@.advanced(),
    {
        self.header.advance_ratchet();
    }

    /// Generates `count` pairs of random digests.
    fn generate_seeds<R: Rng>(count: usize, rng: &R) -> (seeds: Vec<(HashOutput, HashOutput)>)
        ensures
            crate::private::path::are_drawn(rng, seed_views(seeds@), count as int),
    {
        let mut seeds: Vec<(HashOutput, HashOutput)> = Vec::new();
        while seeds.len() < count
            invariant
                seeds@.len() <= count,
                crate::private::path::are_drawn(rng, seed_views(seeds@), seeds@.len() as int),
            decreases count - seeds@.len(),
        {
            let ghost before = seed_views(seeds@);
            let seed = Self::generate_double_random(rng);
            seeds.push(seed);
            assert(seed_views(seeds@) =~= before.push((seed.0@, seed.1@)));
        }
        seeds
    }

    /// Creates directories along a path, each under the one before it and the first under a
    /// parent, from one seed each.
    pub fn create_path_nodes_from(
        path_segments: &[String],
        time: i64,
        parent_bare_name: Namefilter,
        seeds: &Vec<(HashOutput, HashOutput)>,
    ) -> (nodes: PrivatePathNodes)
        requires
            seeds@.len() == path_segments@.len() + 1,
        ensures
            nodes@ == PathNodesView::created(
                crate::private::path::segment_names(path_segments@),
                time,
                parent_bare_name@,
                seed_views(seeds@),
            ),
    {
        let ghost names = crate::private::path::segment_names(path_segments@);
        let ghost parent = parent_bare_name@;
        let ghost views = seed_views(seeds@);
        let ghost all = PathNodesView::created(names, time, parent, views);
        let mut bare_name = parent_bare_name;
        let mut path: Vec<(Rc<PrivateDirectory>, String)> = Vec::new();
        let mut i: usize = 0;
        proof {
            assert(bare_name@ =~= parent + views.take(0).map_values(|seed: SeedView| seed.0));
        }
        while i < path_segments.len()
            invariant
                i <= path_segments@.len(),
                seeds@.len() == path_segments@.len() + 1,
                names == crate::private::path::segment_names(path_segments@),
                views == seed_views(seeds@),
                all == PathNodesView::created(names, time, parent, views),
                bare_name@ == parent + views.take(i as int).map_values(|seed: SeedView| seed.0),
                crate::private::path::step_views(path@) == all.path.take(i as int),
            decreases path_segments@.len() - i,
        {
            let (inumber, ratchet_seed) = seeds[i];
            let directory = Rc::new(PrivateDirectory::new(bare_name, inumber, ratchet_seed, time));
            bare_name = directory.header.bare_name.clone();
            let ghost before = path@;
            let ghost step = (directory@, path_segments@[i as int]@);
            path.push((directory, path_segments[i].clone()));
            proof {
                assert(views[i as int] == (inumber@, ratchet_seed@));
                assert(views.take(i + 1).map_values(|seed: SeedView| seed.0) =~= views.take(
                    i as int,
                ).map_values(|seed: SeedView| seed.0).push(inumber@));
                assert(bare_name@ =~= parent + views.take(i + 1).map_values(
                    |seed: SeedView| seed.0,
                ));
                assert(all.path.take(i + 1) =~= all.path.take(i as int).push(all.path[i as int]));
                assert(all.path[i as int] == step);
                assert(crate::private::path::step_views(path@)
                    =~= crate::private::path::step_views(before).push(step));
            }
            i += 1;
        }
        assert(all.path.take(i as int) =~= all.path);
        let (inumber, ratchet_seed) = seeds[i];
        assert(views[i as int] == (inumber@, ratchet_seed@));
        PathNodes {
            path,
            tail: Rc::new(PrivateDirectory::new(bare_name, inumber, ratchet_seed, time)),
        }
    }

    /// Creates directories along a path that does not exist yet, each from a random draw of its
    /// own.
    pub fn create_path_nodes<R: Rng>(
        path_segments: &[String],
        time: i64,
        parent_bare_name: Namefilter,
        rng: &R,
    ) -> (nodes: PrivatePathNodes)
        ensures
            exists|seeds: Seq<SeedView>|
                crate::private::path::are_drawn(rng, seeds, path_segments@.len() as int + 1)
                    && nodes@ == #[trigger]
                PathNodesView::created(
                    crate::private::path::segment_names(path_segments@),
                    time,
                    parent_bare_name@,
                    seeds,
                ),
    {
        let mut seeds = Self::generate_seeds(path_segments.len(), rng);
        let ghost before = seed_views(seeds@);
        let seed = Self::generate_double_random(rng);
        seeds.push(seed);
        assert(seed_views(seeds@) =~= before.push((seed.0@, seed.1@)));
        Self::create_path_nodes_from(path_segments, time, parent_bare_name, &seeds)
    }

    /// Looks up the node that a name in this directory leads to.
    pub fn lookup_node(&self, path_segment: &str, hamt: &PrivateForest) -> (found: Result<
        Option<PrivateNode>,
        FsError,
    >)
        ensures
            match self@.lookup(path_segment@, hamt@) {
                Ok(Some(node)) => found matches Ok(Some(found)) && found@ == node,
                Ok(None) => found matches Ok(None),
                Err(error) => found matches Err(found) && found@ == error,
            },
    {
        match self.content.entries.get(path_segment) {
            Some(private_ref) => hamt.get(private_ref),
            None => Ok(None),
        }
    }

    /// Follows a path as far as it leads.
    pub fn get_path_nodes(self: Rc<Self>, path_segments: &[String], hamt: &PrivateForest) -> (found:
        Result<PrivatePathNodesResult, FsError>)
        ensures
            match self@.walk(crate::private::path::segment_names(path_segments@), hamt@) {
                Ok(nodes) => found matches Ok(found) && found@ == nodes,
                Err(error) => found matches Err(found) && found@ == error,
            },
    {
        let ghost names = crate::private::path::segment_names(path_segments@);
        let ghost whole = self@.walk(names, hamt@);
        let mut working_node = self;
        let mut path_nodes: Vec<(Rc<PrivateDirectory>, String)> = Vec::new();
        let mut i: usize = 0;
        proof {
            assert(crate::private::path::step_views(path_nodes@) =~= Seq::empty());
            assert(names.skip(0) =~= names);
        }
        while i < path_segments.len()
            invariant
                i <= path_segments@.len(),
                names == crate::private::path::segment_names(path_segments@),
                whole == self@.walk(names, hamt@),
                whole == working_node@.walk_on(
                    crate::private::path::step_views(path_nodes@),
                    names.skip(i as int),
                    hamt@,
                ),
            decreases path_segments@.len() - i,
        {
            let path_segment = &path_segments[i];
            assert(names.skip(i as int)[0] == path_segment@);
            assert(names.skip(i as int).drop_first() =~= names.skip(i + 1));
            match working_node.lookup_node(path_segment.as_str(), hamt) {
                Ok(Some(PrivateNode::Dir(directory))) => {
                    let ghost before = path_nodes@;
                    let ghost step = (working_node@, path_segment@);
                    path_nodes.push((working_node, path_segment.clone()));
                    assert(crate::private::path::step_views(path_nodes@)
                        =~= crate::private::path::step_views(before).push(step));
                    working_node = directory;
                },
                Ok(Some(PrivateNode::File(_))) => {
                    return Ok(
                        PathNodesResult::NotADirectory(
                            PathNodes { path: path_nodes, tail: working_node },
                            path_segment.clone(),
                        ),
                    );
                },
                Ok(None) => {
                    return Ok(
                        PathNodesResult::MissingLink(
                            PathNodes { path: path_nodes, tail: working_node },
                            path_segment.clone(),
                        ),
                    );
                },
                Err(error) => {
                    return Err(error);
                },
            }
            i += 1;
        }
        Ok(PathNodesResult::Complete(PathNodes { path: path_nodes, tail: working_node }))
    }

    /// Makes the directories that are missing on a path, one from each seed.
    pub fn complete_path_nodes(
        found: PrivatePathNodesResult,
        path_segments: &[String],
        time: i64,
        seeds: &Vec<(HashOutput, HashOutput)>,
    ) -> (nodes: Result<PrivatePathNodes, FsError>)
        requires
            found matches PathNodesResult::MissingLink(so_far, _) ==> so_far.path@.len()
                < path_segments@.len() && seeds@.len() == path_segments@.len()
                - so_far.path@.len(),
        ensures
            match found@.completed(
                crate::private::path::segment_names(path_segments@),
                time,
                seed_views(seeds@),
            ) {
                Ok(all) => nodes matches Ok(nodes) && nodes@ == all,
                Err(error) => nodes matches Err(nodes) && nodes@ == error,
            },
    {
        let ghost names = crate::private::path::segment_names(path_segments@);
        match found {
            PathNodesResult::Complete(path_nodes) => Ok(path_nodes),
            PathNodesResult::NotADirectory(_, _) => Err(FsError::InvalidPath),
            PathNodesResult::MissingLink(path_so_far, missing_link) => {
                let total: usize = path_segments.len();
                let split: usize = path_so_far.path.len() + 1;
                let missing_path = vstd::slice::slice_subrange(path_segments, split, total);
                proof {
                    assert(crate::private::path::segment_names(missing_path@) =~= names.skip(
                        split as int,
                    ));
                }
                let parent_bare_name = path_so_far.tail.header.bare_name.clone();
                let missing_path_nodes = Self::create_path_nodes_from(
                    missing_path,
                    time,
                    parent_bare_name,
                    seeds,
                );
                let mut path = path_so_far.path;
                let ghost before = path@;
                let ghost made = missing_path_nodes.path@;
                let ghost link = (path_so_far.tail@, missing_link@);
                path.push((path_so_far.tail, missing_link));
                let mut made_path = missing_path_nodes.path;
                path.append(&mut made_path);
                proof {
                    assert(crate::private::path::step_views(path@)
                        =~= crate::private::path::step_views(before).push(link)
                        + crate::private::path::step_views(made));
                }
                Ok(PathNodes { path, tail: missing_path_nodes.tail })
            },
        }
    }

    /// Follows a path, and makes the directories that are missing on it, each from a random draw
    /// of its own.
    pub fn get_or_create_path_nodes<R: Rng>(
        self: Rc<Self>,
        path_segments: &[String],
        time: i64,
        hamt: &PrivateForest,
        rng: &R,
    ) -> (nodes: Result<PrivatePathNodes, FsError>)
        ensures
            exists|seeds: Seq<SeedView>|
                crate::private::path::are_drawn(
                    rng,
                    seeds,
                    self@.seeds_needed(crate::private::path::segment_names(path_segments@), hamt@),
                ) && match #[trigger] self@.completed(
                    crate::private::path::segment_names(path_segments@),
                    time,
                    hamt@,
                    seeds,
                ) {
                    Ok(all) => nodes matches Ok(nodes) && nodes@ == all,
                    Err(error) => nodes matches Err(nodes) && nodes@ == error,
                },
    {
        let ghost names = crate::private::path::segment_names(path_segments@);
        proof {
            lemma_walk_stops_early(self@, Seq::empty(), names, hamt@);
        }
        match self.get_path_nodes(path_segments, hamt) {
            Ok(found) => {
                let count: usize = match &found {
                    PathNodesResult::MissingLink(so_far, _) => path_segments.len()
                        - so_far.path.len(),
                    _ => 0,
                };
                let seeds = Self::generate_seeds(count, rng);
                let ghost views = seed_views(seeds@);
                let nodes = Self::complete_path_nodes(found, path_segments, time, &seeds);
                proof {
                    let _ = self@.completed(names, time, hamt@, views);
                }
                nodes
            },
            Err(error) => {
                proof {
                    let none: Seq<SeedView> = Seq::empty();
                    assert(crate::private::path::are_drawn(rng, none, 0));
                    let _ = self@.completed(names, time, hamt@, none);
                }
                Err(error)
            },
        }
    }

    /// Stores every directory on a path at its next revision, so that each leads to the next
    /// one as it now is.
    pub fn fix_up_path_nodes(path_nodes: PrivatePathNodes, hamt: Rc<PrivateForest>) -> (fixed: (
        Rc<PrivateDirectory>,
        Rc<PrivateForest>,
    ))
        ensures
            (fixed.0@, fixed.1@) == path_nodes@.fixed_up(hamt@),
    {
        let ghost whole = path_nodes@.fixed_up(hamt@);
        let mut path = path_nodes.path;
        let mut working_hamt = hamt;
        let mut working_child_dir = (*path_nodes.tail).clone();
        working_child_dir.advance_ratchet();
        while path.len() > 0
            invariant
                whole == PathNodesView::stored(
                    crate::private::path::step_views(path@),
                    working_child_dir@,
                    working_hamt@,
                ),
            decreases path@.len(),
        {
            let ghost before = path@;
            if let Some((parent_dir, segment)) = path.pop() {
                proof {
                    assert(crate::private::path::step_views(before).drop_last()
                        =~= crate::private::path::step_views(path@));
                }
                let mut parent_dir = (*parent_dir).clone();
                parent_dir.advance_ratchet();
                let child_private_ref = working_child_dir.header.get_private_ref();
                parent_dir.content.entries.insert(segment, child_private_ref.clone());
                working_hamt = Rc::new(
                    working_hamt.set(
                        &child_private_ref,
                        PrivateNode::Dir(Rc::new(working_child_dir)),
                    ),
                );
                working_child_dir = parent_dir;
            }
        }
        let root_dir = Rc::new(working_child_dir);
        working_hamt = Rc::new(
            working_hamt.set(
                &root_dir.header.get_private_ref(),
                PrivateNode::Dir(Rc::clone(&root_dir)),
            ),
        );
        (root_dir, working_hamt)
    }
}

/// Splits a path into the path of a directory and a name in it.
fn split_last(path_segments: &[String]) -> (split: Result<(&[String], &String), FsError>)
    ensures
        match split {
            Ok((directory_path, name)) => {
                &&& path_segments@.len() > 0
                &&& crate::private::path::segment_names(directory_path@)
                    == crate::private::path::segment_names(path_segments@).drop_last()
                &&& name@ == crate::private::path::segment_names(path_segments@).last()
            },
            Err(error) => path_segments@.len() == 0 && error == FsError::InvalidPath,
        },
{
    let count: usize = path_segments.len();
    if count == 0 {
        Err(FsError::InvalidPath)
    } else {
        let directory_path = vstd::slice::slice_subrange(path_segments, 0, count - 1);
        assert(crate::private::path::segment_names(directory_path@)
            =~= crate::private::path::segment_names(path_segments@).drop_last());
        Ok((directory_path, &path_segments[count - 1]))
    }
}

impl PrivateDirectory<PrivateNodeHeader> {
    /// Follows a path and gives the node at its end.
    pub fn get_node(self: Rc<Self>, path_segments: &[String], hamt: Rc<PrivateForest>) -> (outcome:
        Result<PrivateOpResult<Option<PrivateNode>>, FsError>)
        ensures
            match self@.node_at(crate::private::path::segment_names(path_segments@), hamt@) {
                Ok(node) => {
                    &&& outcome matches Ok(outcome)
                    &&& outcome.root_dir@ == self@
                    &&& outcome.hamt@ == hamt@
                    &&& outcome.result is Some == node is Some
                    &&& node matches Some(node) ==> outcome.result->0@ == node
                },
                Err(error) => outcome matches Err(outcome) && outcome@ == error,
            },
    {
        let root_dir = Rc::clone(&self);
        match split_last(path_segments) {
            Ok((parent_path, path_segment)) => match self.get_path_nodes(parent_path, &hamt) {
                Ok(PathNodesResult::Complete(parent_path_nodes)) => {
                    match parent_path_nodes.tail.lookup_node(path_segment.as_str(), &hamt) {
                        Ok(result) => Ok(PrivateOpResult { root_dir, hamt, result }),
                        Err(error) => Err(error),
                    }
                },
                Ok(PathNodesResult::MissingLink(_, _)) => Err(FsError::NotFound),
                Ok(PathNodesResult::NotADirectory(_, _)) => Err(FsError::NotFound),
                Err(error) => Err(error),
            },
            Err(_) => Ok(
                PrivateOpResult { root_dir, hamt, result: Some(PrivateNode::Dir(self)) },
            ),
        }
    }

    /// Reads the file at the end of a path.
    pub fn read(self: Rc<Self>, path_segments: &[String], hamt: Rc<PrivateForest>) -> (outcome:
        Result<PrivateOpResult<Vec<u8>>, FsError>)
        ensures
            match self@.content_at(crate::private::path::segment_names(path_segments@), hamt@) {
                Ok(content) => {
                    &&& outcome matches Ok(outcome)
                    &&& outcome.root_dir@ == self@
                    &&& outcome.hamt@ == hamt@
                    &&& outcome.result@ == content
                },
                Err(error) => outcome matches Err(outcome) && outcome@ == error,
            },
    {
        let root_dir = Rc::clone(&self);
        match split_last(path_segments) {
            Ok((path, filename)) => match self.get_path_nodes(path, &hamt) {
                Ok(PathNodesResult::Complete(node_path)) => {
                    match node_path.tail.lookup_node(filename.as_str(), &hamt) {
                        Ok(Some(PrivateNode::File(file))) => Ok(
                            PrivateOpResult {
                                root_dir,
                                hamt,
                                result: copy_bytes(&file.content.content),
                            },
                        ),
                        Ok(Some(PrivateNode::Dir(_))) => Err(FsError::NotAFile),
                        Ok(None) => Err(FsError::NotFound),
                        Err(error) => Err(error),
                    }
                },
                Ok(_) => Err(FsError::NotFound),
                Err(error) => Err(error),
            },
            Err(error) => Err(error),
        }
    }

    /// Puts a file under a name in the last directory of a path, and stores what changed.
    pub fn put_file(
        path_nodes: PrivatePathNodes,
        filename: &String,
        file: PrivateFile,
        hamt: Rc<PrivateForest>,
    ) -> (fixed: (Rc<PrivateDirectory>, Rc<PrivateForest>))
        ensures
            (fixed.0@, fixed.1@) == path_nodes@.with_file(filename@, file@, hamt@),
    {
        let child_private_ref = file.header.get_private_ref();
        let hamt = Rc::new(hamt.set(&child_private_ref, PrivateNode::File(Rc::new(file))));
        let mut directory = (*path_nodes.tail).clone();
        directory.content.entries.insert(filename.clone(), child_private_ref);
        Self::fix_up_path_nodes(PathNodes { path: path_nodes.path, tail: Rc::new(directory) }, hamt)
    }

    /// Makes the file that is put under a name in the last directory of a path: the one that is
    /// there, with other content, or else a new one.
    fn file_to_put<R: Rng>(
        directory: &PrivateDirectory,
        filename: &String,
        time: i64,
        content: Vec<u8>,
        hamt: &PrivateForest,
        rng: &R,
    ) -> (file: Result<PrivateFile, FsError>)
        ensures
            exists|seed: SeedView|
                (directory@.has_no(filename@, hamt@) ==> crate::private::path::is_drawn(rng, seed))
                    && match #[trigger] directory@.file_to_put(
                    filename@,
                    time,
                    content@,
                    hamt@,
                    seed,
                ) {
                    Ok(put) => file matches Ok(file) && file@ == put,
                    Err(error) => file matches Err(file) && file@ == error,
                },
    {
        let ghost bytes = content@;
        proof {
            let seed: SeedView = (Seq::empty(), Seq::empty());
            let _ = directory@.file_to_put(filename@, time, bytes, hamt@, seed);
        }
        match directory.lookup_node(filename.as_str(), hamt) {
            Ok(Some(PrivateNode::File(file_before))) => {
                let mut file = (*file_before).clone();
                file.content.content = content;
                file.content.metadata = Metadata::new(time, UnixFsNodeKind::File);
                Ok(file)
            },
            Ok(Some(PrivateNode::Dir(_))) => Err(FsError::DirectoryAlreadyExists),
            Ok(None) => {
                let (inumber, ratchet_seed) = Self::generate_double_random(rng);
                proof {
                    let seed: SeedView = (inumber@, ratchet_seed@);
                    let _ = directory@.file_to_put(filename@, time, bytes, hamt@, seed);
                }
                Ok(
                    PrivateFile::new(
                        directory.header.bare_name.clone(),
                        inumber,
                        ratchet_seed,
                        time,
                        content,
                    ),
                )
            },
            Err(error) => Err(error),
        }
    }

    /// Writes a file at the end of a path. Makes the directories that are missing on the way, and
    /// the file if it is not there, each from a random draw of its own.
    pub fn write<R: Rng>(
        self: Rc<Self>,
        path_segments: &[String],
        time: i64,
        content: Vec<u8>,
        hamt: Rc<PrivateForest>,
        rng: &R,
    ) -> (outcome: Result<PrivateOpResult<()>, FsError>)
        ensures
            path_segments@.len() == 0 ==> outcome == Err::<PrivateOpResult<()>, FsError>(
                FsError::InvalidPath,
            ),
            path_segments@.len() > 0 ==> exists|seeds: Seq<SeedView>, file_seed: SeedView|
                crate::private::path::are_drawn(
                    rng,
                    seeds,
                    self@.seeds_needed(
                        crate::private::path::segment_names(path_segments@).drop_last(),
                        hamt@,
                    ),
                ) && (self@.makes_file(
                    crate::private::path::segment_names(path_segments@),
                    time,
                    hamt@,
                    seeds,
                ) ==> crate::private::path::is_drawn(rng, file_seed)) && match #[trigger]
                self@.after_write(
                    crate::private::path::segment_names(path_segments@),
                    time,
                    content@,
                    hamt@,
                    seeds,
                    file_seed,
                ) {
                    Ok((root_dir, forest)) => {
                        &&& outcome matches Ok(outcome)
                        &&& outcome.root_dir@ == root_dir
                        &&& outcome.hamt@ == forest
                    },
                    Err(error) => outcome matches Err(outcome) && outcome@ == error,
                },
    {
        let ghost names = crate::private::path::segment_names(path_segments@);
        let ghost root = self@;
        let ghost forest = hamt@;
        let ghost bytes = content@;
        match split_last(path_segments) {
            Ok((directory_path, filename)) => {
                let found = self.get_or_create_path_nodes(directory_path, time, &hamt, rng);
                let ghost seeds = choose|seeds: Seq<SeedView>|
                    crate::private::path::are_drawn(
                        rng,
                        seeds,
                        root.seeds_needed(names.drop_last(), forest),
                    ) && match #[trigger] root.completed(names.drop_last(), time, forest, seeds) {
                        Ok(all) => found matches Ok(nodes) && nodes@ == all,
                        Err(error) => found matches Err(nodes) && nodes@ == error,
                    };
                match found {
                    Ok(directory_path_nodes) => {
                        let file = Self::file_to_put(
                            &directory_path_nodes.tail,
                            filename,
                            time,
                            content,
                            &hamt,
                            rng,
                        );
                        proof {
                            let seed = choose|seed: SeedView|
                                (directory_path_nodes.tail@.has_no(names.last(), forest)
                                    ==> crate::private::path::is_drawn(rng, seed))
                                    && match #[trigger] directory_path_nodes.tail@.file_to_put(
                                    names.last(),
                                    time,
                                    bytes,
                                    forest,
                                    seed,
                                ) {
                                    Ok(put) => file matches Ok(file) && file@ == put,
                                    Err(error) => file matches Err(file) && file@ == error,
                                };
                            let _ = root.after_write(names, time, bytes, forest, seeds, seed);
                        }
                        match file {
                            Ok(file) => {
                                let (root_dir, hamt) = Self::put_file(
                                    directory_path_nodes,
                                    filename,
                                    file,
                                    hamt,
                                );
                                Ok(PrivateOpResult { root_dir, hamt, result: () })
                            },
                            Err(error) => Err(error),
                        }
                    },
                    Err(error) => {
                        proof {
                            let seed: SeedView = (Seq::empty(), Seq::empty());
                            let _ = root.after_write(names, time, bytes, forest, seeds, seed);
                        }
                        Err(error)
                    },
                }
            },
            Err(error) => Err(error),
        }
    }
}

impl PrivateDirectory<PrivateNodeHeader> {
    /// Makes directories along a path, each from a random draw of its own.
    pub fn mkdir<R: Rng>(
        self: Rc<Self>,
        path_segments: &[String],
        time: i64,
        hamt: Rc<PrivateForest>,
        rng: &R,
    ) -> (outcome: Result<PrivateOpResult<()>, FsError>)
        ensures
            exists|seeds: Seq<SeedView>|
                crate::private::path::are_drawn(
                    rng,
                    seeds,
                    self@.seeds_needed(crate::private::path::segment_names(path_segments@), hamt@),
                ) && match #[trigger] self@.after_mkdir(
                    crate::private::path::segment_names(path_segments@),
                    time,
                    hamt@,
                    seeds,
                ) {
                    Ok((root_dir, forest)) => {
                        &&& outcome matches Ok(outcome)
                        &&& outcome.root_dir@ == root_dir
                        &&& outcome.hamt@ == forest
                    },
                    Err(error) => outcome matches Err(outcome) && outcome@ == error,
                },
    {
        let ghost names = crate::private::path::segment_names(path_segments@);
        let ghost root = self@;
        let ghost forest = hamt@;
        let found = self.get_or_create_path_nodes(path_segments, time, &hamt, rng);
        proof {
            let seeds = choose|seeds: Seq<SeedView>|
                crate::private::path::are_drawn(rng, seeds, root.seeds_needed(names, forest))
                    && match #[trigger] root.completed(names, time, forest, seeds) {
                    Ok(all) => found matches Ok(nodes) && nodes@ == all,
                    Err(error) => found matches Err(nodes) && nodes@ == error,
                };
            let _ = root.after_mkdir(names, time, forest, seeds);
        }
        match found {
            Ok(path_nodes) => {
                let (root_dir, hamt) = Self::fix_up_path_nodes(path_nodes, hamt);
                Ok(PrivateOpResult { root_dir, hamt, result: () })
            },
            Err(error) => Err(error),
        }
    }

    /// Lists the names in this directory, in order, each with the metadata of its node.
    fn list(&self, hamt: &PrivateForest) -> (list: Result<Vec<(String, Metadata)>, FsError>)
        ensures
            crate::private::entries::enumerates(
                self.content.entries.names(),
                self@.content.entries,
            ),
            match self@.listed(self.content.entries.names(), hamt@) {
                Ok(items) => list matches Ok(list) && listing(list@) == items,
                Err(error) => list matches Err(list) && list@ == error,
            },
    {
        let entries = &self.content.entries;
        let ghost names = entries.names();
        let count: usize = entries.len();
        let mut result: Vec<(String, Metadata)> = Vec::new();
        let mut i: usize = 0;
        proof {
            assert(listing(result@) =~= Seq::empty());
        }
        while i < count
            invariant
                i <= count,
                count == names.len(),
                names == entries.names(),
                entries == self.content.entries,
                crate::private::entries::enumerates(names, entries@),
                self@.listed(names.take(i as int), hamt@) == Ok::<_, FsErrorView>(
                    listing(result@),
                ),
            decreases count - i,
        {
            let entry = entries.entry(i);
            let ghost before = result@;
            proof {
                assert(names.take(i + 1).drop_last() =~= names.take(i as int));
            }
            match hamt.get(&entry.private_ref) {
                Ok(Some(PrivateNode::File(file))) => {
                    result.push((entry.name.clone(), file.content.metadata));
                },
                Ok(Some(PrivateNode::Dir(dir))) => {
                    result.push((entry.name.clone(), dir.content.metadata));
                },
                Ok(None) => {
                    proof {
                        self@.lemma_listing_stops(names, i as int, hamt@);
                    }
                    return Err(FsError::NotFound);
                },
                Err(error) => {
                    proof {
                        self@.lemma_listing_stops(names, i as int, hamt@);
                    }
                    return Err(error);
                },
            }
            assert(listing(result@) =~= listing(before).push((entry.name@, result@.last().1)));
            i += 1;
        }
        assert(names.take(count as int) =~= names);
        Ok(result)
    }

    /// Lists the names in the directory at the end of a path, in order, each with the metadata
    /// of its node.
    pub fn ls(self: Rc<Self>, path_segments: &[String], hamt: Rc<PrivateForest>) -> (outcome:
        Result<PrivateOpResult<Vec<(String, Metadata)>>, FsError>)
        ensures
            exists|names: Seq<Seq<char>>|
                self@.names_at(
                    crate::private::path::segment_names(path_segments@),
                    hamt@,
                    names,
                ) && match #[trigger] self@.listed_at(
                    crate::private::path::segment_names(path_segments@),
                    hamt@,
                    names,
                ) {
                    Ok(list) => {
                        &&& outcome matches Ok(outcome)
                        &&& outcome.root_dir@ == self@
                        &&& outcome.hamt@ == hamt@
                        &&& listing(outcome.result@) == list
                    },
                    Err(error) => outcome matches Err(outcome) && outcome@ == error,
                },
    {
        let ghost segments = crate::private::path::segment_names(path_segments@);
        let root_dir = Rc::clone(&self);
        match self.get_path_nodes(path_segments, &hamt) {
            Ok(PathNodesResult::Complete(path_nodes)) => {
                proof {
                    let names = path_nodes.tail.content.entries.names();
                    let _ = root_dir@.listed_at(segments, hamt@, names);
                }
                match path_nodes.tail.list(&hamt) {
                    Ok(result) => Ok(PrivateOpResult { root_dir, hamt, result }),
                    Err(error) => Err(error),
                }
            },
            Ok(_) => {
                proof {
                    let _ = root_dir@.listed_at(segments, hamt@, Seq::empty());
                    assert(root_dir@.names_at(segments, hamt@, Seq::empty()));
                }
                Err(FsError::NotFound)
            },
            Err(error) => {
                proof {
                    let _ = root_dir@.listed_at(segments, hamt@, Seq::empty());
                    assert(root_dir@.names_at(segments, hamt@, Seq::empty()));
                }
                Err(error)
            },
        }
    }

    /// Tells whether a path ends in a name that leads to no node.
    pub fn has_dangling_name(
        self: Rc<Self>,
        path_segments: &[String],
        hamt: &PrivateForest,
    ) -> (dangling: bool)
        ensures
            dangling == self@.dangles(crate::private::path::segment_names(path_segments@), hamt@),
    {
        match split_last(path_segments) {
            Ok((directory_path, node_name)) => {
                match self.get_path_nodes(directory_path, hamt) {
                    Ok(PathNodesResult::Complete(node_path)) => {
                        match node_path.tail.content.entries.get(node_name.as_str()) {
                            Some(private_ref) => matches!(hamt.get(private_ref), Ok(None)),
                            None => false,
                        }
                    },
                    _ => false,
                }
            },
            Err(_) => false,
        }
    }

    /// Takes the name at the end of a path out of its directory, and gives the node that was
    /// there. The name has to lead to a node if it is in the directory.
    pub fn rm(self: Rc<Self>, path_segments: &[String], hamt: Rc<PrivateForest>) -> (outcome:
        Result<PrivateOpResult<PrivateNode>, FsError>)
        requires
            !self@.dangles(crate::private::path::segment_names(path_segments@), hamt@),
        ensures
            match self@.after_rm(crate::private::path::segment_names(path_segments@), hamt@) {
                Ok((root_dir, forest, removed)) => {
                    &&& outcome matches Ok(outcome)
                    &&& outcome.root_dir@ == root_dir
                    &&& outcome.hamt@ == forest
                    &&& outcome.result@ == removed
                },
                Err(error) => outcome matches Err(outcome) && outcome@ == error,
            },
    {
        match split_last(path_segments) {
            Ok((directory_path, node_name)) => {
                match self.get_path_nodes(directory_path, &hamt) {
                    Ok(PathNodesResult::Complete(node_path)) => {
                        let mut directory = (*node_path.tail).clone();
                        match directory.content.entries.remove(node_name.as_str()) {
                            Some(private_ref) => match hamt.get(&private_ref) {
                                Ok(Some(removed_node)) => {
                                    let (root_dir, hamt) = Self::fix_up_path_nodes(
                                        PathNodes {
                                            path: node_path.path,
                                            tail: Rc::new(directory),
                                        },
                                        hamt,
                                    );
                                    Ok(PrivateOpResult { root_dir, hamt, result: removed_node })
                                },
                                Ok(None) => Err(FsError::NotFound),
                                Err(error) => Err(error),
                            },
                            None => Err(FsError::NotFound),
                        }
                    },
                    Ok(_) => Err(FsError::NotFound),
                    Err(error) => Err(error),
                }
            },
            Err(error) => Err(error),
        }
    }
}

impl PrivateDirectoryView {
    /// A listing is as its first part that fails.
    proof fn lemma_listing_stops(
        self,
        names: Seq<Seq<char>>,
        index: int,
        forest: PrivateForestView,
    )
        requires
            0 <= index < names.len(),
            self.listed(names.take(index + 1), forest) is Err,
        ensures
            self.listed(names, forest) == self.listed(names.take(index + 1), forest),
        decreases names.len(),
    {
        if index + 1 == names.len() {
            assert(names.take(index + 1) =~= names);
        } else {
            assert(names.drop_last().take(index + 1) =~= names.take(index + 1));
            self.lemma_listing_stops(names.drop_last(), index, forest);
        }
    }
}

/// A path that ends at a missing name has that name, and those after it, still before it.
proof fn lemma_walk_stops_early(
    directory: PrivateDirectoryView,
    path: Seq<(PrivateDirectoryView, Seq<char>)>,
    segments: Seq<Seq<char>>,
    forest: PrivateForestView,
)
    ensures
        directory.walk_on(path, segments, forest) matches Ok(
            PathNodesResultView::MissingLink(nodes, _),
        ) ==> path.len() <= nodes.path.len() < path.len() + segments.len(),
    decreases segments.len(),
{
    if segments.len() > 0 {
        match directory.lookup(segments[0], forest) {
            Ok(Some(PrivateNodeView::Dir(child))) => {
                lemma_walk_stops_early(
                    child,
                    path.push((directory, segments[0])),
                    segments.drop_first(),
                    forest,
                );
            },
            _ => {},
        }
    }
}

} // verus!
