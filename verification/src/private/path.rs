//! Paths through the directory tree.

use std::rc::Rc;

use vstd::prelude::*;

use crate::common::{Rng, DOUBLE_SIZE, HASH_BYTE_SIZE};
use crate::error::{FsError, FsErrorView};
use crate::private::directory::{PrivateDirectory, PrivateDirectoryView};
use crate::private::forest::PrivateForestView;
use crate::private::node::{PrivateNodeHeader, PrivateNodeView};

verus! {

/// The directories on a path, each with the name that leads on from it, and the last one.
#[derive(Debug, PartialEq, Eq)]
pub struct PathNodes<D> {
    pub path: Vec<(Rc<D>, String)>,
    pub tail: Rc<D>,
}

impl<D> Clone for PathNodes<D> {
    fn clone(&self) -> (copy: Self)
        ensures
            copy.path@ == self.path@,
            copy.tail == self.tail,
    {
        let mut path: Vec<(Rc<D>, String)> = Vec::new();
        let mut i: usize = 0;
        while i < self.path.len()
            invariant
                i <= self.path@.len(),
                path@ == self.path@.take(i as int),
            decreases self.path@.len() - i,
        {
            path.push((Rc::clone(&self.path[i].0), self.path[i].1.clone()));
            assert(self.path@.take(i + 1) =~= self.path@.take(i as int).push(
                self.path@[i as int],
            ));
            i += 1;
        }
        assert(self.path@.take(i as int) =~= self.path@);
        PathNodes { path, tail: Rc::clone(&self.tail) }
    }
}

/// How far a path leads.
#[derive(Debug, PartialEq, Eq)]
pub enum PathNodesResult<D> {
    /// To its end.
    Complete(PathNodes<D>),
    /// To a directory that has no such name.
    MissingLink(PathNodes<D>, String),
    /// To a directory in which the name is not a directory's.
    NotADirectory(PathNodes<D>, String),
}

pub type PrivatePathNodes = PathNodes<PrivateDirectory>;

pub type PrivatePathNodesResult = PathNodesResult<PrivateDirectory>;

/// What a `PrivatePathNodes` holds.
pub struct PathNodesView {
    pub path: Seq<(PrivateDirectoryView, Seq<char>)>,
    pub tail: PrivateDirectoryView,
}

/// What a `PrivatePathNodesResult` holds.
pub enum PathNodesResultView {
    Complete(PathNodesView),
    MissingLink(PathNodesView, Seq<char>),
    NotADirectory(PathNodesView, Seq<char>),
}

/// The names in a list of path segments.
pub open spec fn segment_names(segments: Seq<String>) -> Seq<Seq<char>> {
    segments.map_values(|segment: String| segment@)
}

/// The steps of a path.
pub open spec fn step_views(path: Seq<(Rc<PrivateDirectory>, String)>) -> Seq<
    (PrivateDirectoryView, Seq<char>),
> {
    path.map_values(|step: (Rc<PrivateDirectory>, String)| (step.0@, step.1@))
}

impl View for PathNodes<PrivateDirectory<PrivateNodeHeader>> {
    type V = PathNodesView;

    open spec fn view(&self) -> PathNodesView {
        PathNodesView { path: step_views(self.path@), tail: self.tail@ }
    }
}

impl View for PathNodesResult<PrivateDirectory<PrivateNodeHeader>> {
    type V = PathNodesResultView;

    open spec fn view(&self) -> PathNodesResultView {
        match self {
            PathNodesResult::Complete(nodes) => PathNodesResultView::Complete(nodes@),
            PathNodesResult::MissingLink(nodes, name) => PathNodesResultView::MissingLink(
                nodes@,
                name@,
            ),
            PathNodesResult::NotADirectory(nodes, name) => PathNodesResultView::NotADirectory(
                nodes@,
                name@,
            ),
        }
    }
}

/// A pair of random digests: an inumber and the seed of a ratchet.
pub type SeedView = (Seq<u8>, Seq<u8>);

/// Whether a pair is the two halves of bytes that were drawn at once.
pub open spec fn is_drawn<R: Rng>(rng: &R, seed: SeedView) -> bool {
    exists|bytes: [u8; DOUBLE_SIZE]| #[trigger]
        call_ensures(R::random_bytes::<DOUBLE_SIZE>, (rng,), bytes) && seed.0 == bytes@.take(
            HASH_BYTE_SIZE as int,
        ) && seed.1 == bytes@.skip(HASH_BYTE_SIZE as int)
}

/// Whether `seeds` are `count` pairs of digests, each from a draw of its own.
pub open spec fn are_drawn<R: Rng>(rng: &R, seeds: Seq<SeedView>, count: int) -> bool {
    &&& seeds.len() == count
    &&& forall|i: int| 0 <= i < count ==> is_drawn(rng, #[trigger] seeds[i])
}

impl PathNodesView {
    /// The directory that is made from the seed at `index`: its parents are made from the
    /// seeds before it.
    pub open spec fn created_directory(
        index: int,
        time: i64,
        parent_bare_name: Seq<Seq<u8>>,
        seeds: Seq<SeedView>,
    ) -> PrivateDirectoryView {
        PrivateDirectoryView::fresh(
            parent_bare_name + seeds.take(index).map_values(|seed: SeedView| seed.0),
            seeds[index].0,
            seeds[index].1,
            time,
        )
    }

    /// New directories along a path, each under the one before it.
    pub open spec fn created(
        segments: Seq<Seq<char>>,
        time: i64,
        parent_bare_name: Seq<Seq<u8>>,
        seeds: Seq<SeedView>,
    ) -> PathNodesView {
        PathNodesView {
            path: Seq::new(
                segments.len(),
                |i: int|
                    (Self::created_directory(i, time, parent_bare_name, seeds), segments[i]),
            ),
            tail: Self::created_directory(segments.len() as int, time, parent_bare_name, seeds),
        }
    }

    /// The root and the forest after a directory and those on the path to it were stored.
    ///
    /// The last directory on the path moves on to its next revision, leads to `child` under
    /// its name, and is stored in turn.
    pub open spec fn stored(
        path: Seq<(PrivateDirectoryView, Seq<char>)>,
        child: PrivateDirectoryView,
        forest: PrivateForestView,
    ) -> (PrivateDirectoryView, PrivateForestView)
        decreases path.len(),
    {
        let private_ref = child.header.private_ref();
        let after = forest.set(private_ref, PrivateNodeView::Dir(child));
        if path.len() == 0 {
            (child, after)
        } else {
            Self::stored(
                path.drop_last(),
                path.last().0.advanced().with_entry(path.last().1, private_ref),
                after,
            )
        }
    }

    /// The root and the forest after every directory on the path moved on to its next
    /// revision.
    pub open spec fn fixed_up(self, forest: PrivateForestView) -> (
        PrivateDirectoryView,
        PrivateForestView,
    ) {
        Self::stored(self.path, self.tail.advanced(), forest)
    }
}

impl PrivateDirectoryView {
    /// How far `segments` lead from this directory, which was reached along `path`.
    pub open spec fn walk_on(
        self,
        path: Seq<(PrivateDirectoryView, Seq<char>)>,
        segments: Seq<Seq<char>>,
        forest: PrivateForestView,
    ) -> Result<PathNodesResultView, FsErrorView>
        decreases segments.len(),
    {
        let nodes = PathNodesView { path, tail: self };
        if segments.len() == 0 {
            Ok(PathNodesResultView::Complete(nodes))
        } else {
            match self.lookup(segments[0], forest) {
                Ok(Some(PrivateNodeView::Dir(child))) => child.walk_on(
                    path.push((self, segments[0])),
                    segments.drop_first(),
                    forest,
                ),
                Ok(Some(PrivateNodeView::File(_))) => Ok(
                    PathNodesResultView::NotADirectory(nodes, segments[0]),
                ),
                Ok(None) => Ok(PathNodesResultView::MissingLink(nodes, segments[0])),
                Err(error) => Err(error),
            }
        }
    }

    /// How far `segments` lead from this directory.
    pub open spec fn walk(self, segments: Seq<Seq<char>>, forest: PrivateForestView) -> Result<
        PathNodesResultView,
        FsErrorView,
    > {
        self.walk_on(Seq::empty(), segments, forest)
    }

    /// How many seeds it takes to make the directories that are missing on a path.
    pub open spec fn seeds_needed(
        self,
        segments: Seq<Seq<char>>,
        forest: PrivateForestView,
    ) -> int {
        match self.walk(segments, forest) {
            Ok(found) => found.seeds_needed(segments),
            Err(_) => 0,
        }
    }

    /// The whole path, with the directories made that were missing.
    pub open spec fn completed(
        self,
        segments: Seq<Seq<char>>,
        time: i64,
        forest: PrivateForestView,
        seeds: Seq<SeedView>,
    ) -> Result<PathNodesView, FsErrorView> {
        match self.walk(segments, forest) {
            Ok(found) => found.completed(segments, time, seeds),
            Err(error) => Err(error),
        }
    }
}

impl PathNodesResultView {
    /// How many seeds it takes to make the directories that are missing on a path.
    pub open spec fn seeds_needed(self, segments: Seq<Seq<char>>) -> int {
        match self {
            PathNodesResultView::MissingLink(nodes, _) => segments.len() - nodes.path.len(),
            _ => 0,
        }
    }

    /// The whole path, with the directories made that were missing.
    pub open spec fn completed(
        self,
        segments: Seq<Seq<char>>,
        time: i64,
        seeds: Seq<SeedView>,
    ) -> Result<PathNodesView, FsErrorView> {
        match self {
            PathNodesResultView::Complete(nodes) => Ok(nodes),
            PathNodesResultView::NotADirectory(_, _) => Err(
                FsErrorView::Plain(FsError::InvalidPath),
            ),
            PathNodesResultView::MissingLink(nodes, name) => {
                let made = PathNodesView::created(
                    segments.skip(nodes.path.len() as int + 1),
                    time,
                    nodes.tail.header.bare_name,
                    seeds,
                );
                Ok(
                    PathNodesView {
                        path: nodes.path.push((nodes.tail, name)) + made.path,
                        tail: made.tail,
                    },
                )
            },
        }
    }
}

/// The two halves of a draw, one behind the other, are all of what was drawn.
pub proof fn law_halves_make_up_the_draw<R: Rng>(rng: &R, seed: SeedView)
    requires
        is_drawn(rng, seed),
    ensures
        seed.0.len() == HASH_BYTE_SIZE,
        seed.1.len() == HASH_BYTE_SIZE,
        exists|bytes: [u8; DOUBLE_SIZE]| #[trigger]
            call_ensures(R::random_bytes::<DOUBLE_SIZE>, (rng,), bytes) && bytes@ == seed.0
                + seed.1,
{
    let bytes = choose|bytes: [u8; DOUBLE_SIZE]| #[trigger]
        call_ensures(R::random_bytes::<DOUBLE_SIZE>, (rng,), bytes) && seed.0 == bytes@.take(
            HASH_BYTE_SIZE as int,
        ) && seed.1 == bytes@.skip(HASH_BYTE_SIZE as int);
    assert(bytes@ =~= seed.0 + seed.1);
}

/// Each of the seeds that were drawn was drawn, and there are as many as were asked for.
pub proof fn law_every_seed_is_drawn<R: Rng>(
    rng: &R,
    seeds: Seq<SeedView>,
    count: int,
    index: int,
)
    requires
        are_drawn(rng, seeds, count),
        0 <= index < seeds.len(),
    ensures
        seeds.len() == count,
        exists|bytes: [u8; DOUBLE_SIZE]| #[trigger]
            call_ensures(R::random_bytes::<DOUBLE_SIZE>, (rng,), bytes) && bytes@
                == seeds[index].0 + seeds[index].1,
{
    law_halves_make_up_the_draw(rng, seeds[index]);
}

} // verus!
