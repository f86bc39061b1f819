//! What holds of a forest that is fetched from a store bit by bit.
//!
//! An operation on what is known so far either gives what it would give if all were known, or
//! says which place has to be fetched.

use vstd::prelude::*;

use crate::error::FsErrorView;
use crate::private::directory::PrivateDirectoryView;
use crate::private::forest::PrivateForestView;
use crate::private::node::PrivateNodeView;
use crate::private::path::{PathNodesResultView, PathNodesView, SeedView};
use crate::private::reference::PrivateRefView;

verus! {

/// Whether what is known of a forest is what all of it holds.
pub open spec fn is_part_of(part: PrivateForestView, whole: PrivateForestView) -> bool {
    &&& part.backed
    &&& !whole.backed
    &&& forall|place: (Seq<u8>, Seq<u8>)| #[trigger]
        part.nodes.contains_key(place) ==> part.nodes[place] == (if whole.nodes.contains_key(
            place,
        ) {
            whole.nodes[place]
        } else {
            None
        })
}

/// Whether an outcome is the one that is right, or asks for a place that is not known yet.
pub open spec fn right_or_asks<T>(
    outcome: Result<T, FsErrorView>,
    right: Result<T, FsErrorView>,
    part: PrivateForestView,
) -> bool {
    ||| outcome == right
    ||| outcome matches Err(FsErrorView::NotLoaded(place)) && !part.nodes.contains_key(place)
}

/// What a fetch puts into the forest keeps it a part of the whole.
pub proof fn law_fetched_part_stays_a_part(
    part: PrivateForestView,
    whole: PrivateForestView,
    place: (Seq<u8>, Seq<u8>),
)
    requires
        is_part_of(part, whole),
    ensures
        is_part_of(
            PrivateForestView {
                nodes: part.nodes.insert(
                    place,
                    if whole.nodes.contains_key(place) {
                        whole.nodes[place]
                    } else {
                        None
                    },
                ),
                ..part
            },
            whole,
        ),
{
}

/// A lookup is right or asks. In the whole it does not fail.
proof fn lemma_lookup(
    directory: PrivateDirectoryView,
    name: Seq<char>,
    part: PrivateForestView,
    whole: PrivateForestView,
)
    requires
        is_part_of(part, whole),
    ensures
        right_or_asks(directory.lookup(name, part), directory.lookup(name, whole), part),
        directory.lookup(name, whole) is Ok,
{
}

/// A walk is right or asks. In the whole it does not fail.
proof fn lemma_walk(
    directory: PrivateDirectoryView,
    path: Seq<(PrivateDirectoryView, Seq<char>)>,
    segments: Seq<Seq<char>>,
    part: PrivateForestView,
    whole: PrivateForestView,
)
    requires
        is_part_of(part, whole),
    ensures
        right_or_asks(
            directory.walk_on(path, segments, part),
            directory.walk_on(path, segments, whole),
            part,
        ),
        directory.walk_on(path, segments, whole) is Ok,
    decreases segments.len(),
{
    if segments.len() > 0 {
        lemma_lookup(directory, segments[0], part, whole);
        match directory.lookup(segments[0], whole) {
            Ok(Some(PrivateNodeView::Dir(child))) => {
                lemma_walk(
                    child,
                    path.push((directory, segments[0])),
                    segments.drop_first(),
                    part,
                    whole,
                );
            },
            _ => {},
        }
    }
}

/// A listing is right or asks.
proof fn lemma_listed(
    directory: PrivateDirectoryView,
    names: Seq<Seq<char>>,
    part: PrivateForestView,
    whole: PrivateForestView,
)
    requires
        is_part_of(part, whole),
    ensures
        right_or_asks(directory.listed(names, part), directory.listed(names, whole), part),
    decreases names.len(),
{
    if names.len() > 0 {
        lemma_listed(directory, names.drop_last(), part, whole);
        lemma_lookup(directory, names.last(), part, whole);
    }
}

/// Looking into a tree that is fetched bit by bit gives what is there, or says what to fetch.
pub proof fn law_reading_is_right_or_asks(
    directory: PrivateDirectoryView,
    segments: Seq<Seq<char>>,
    names: Seq<Seq<char>>,
    part: PrivateForestView,
    whole: PrivateForestView,
)
    requires
        is_part_of(part, whole),
    ensures
        right_or_asks(directory.walk(segments, part), directory.walk(segments, whole), part),
        right_or_asks(
            directory.node_at(segments, part),
            directory.node_at(segments, whole),
            part,
        ),
        right_or_asks(
            directory.content_at(segments, part),
            directory.content_at(segments, whole),
            part,
        ),
        right_or_asks(
            directory.listed_at(segments, part, names),
            directory.listed_at(segments, whole, names),
            part,
        ),
{
    lemma_walk(directory, Seq::empty(), segments, part, whole);
    match directory.walk(segments, whole) {
        Ok(PathNodesResultView::Complete(nodes)) => {
            lemma_listed(nodes.tail, names, part, whole);
        },
        _ => {},
    }
    if segments.len() > 0 {
        lemma_walk(directory, Seq::empty(), segments.drop_last(), part, whole);
        match directory.walk(segments.drop_last(), whole) {
            Ok(PathNodesResultView::Complete(nodes)) => {
                lemma_lookup(nodes.tail, segments.last(), part, whole);
            },
            _ => {},
        }
    }
}

/// The root and the forest after a change.
pub type ChangedView = (PrivateDirectoryView, PrivateForestView);

/// Whether a change to a part of a forest is the one to the whole: the same root comes of it, and
/// the same nodes are set, or it fails in the same way, or it asks for a place that is not known
/// yet.
pub open spec fn changes_alike_or_asks(
    outcome: Result<ChangedView, FsErrorView>,
    right: Result<ChangedView, FsErrorView>,
    part: PrivateForestView,
    whole: PrivateForestView,
) -> bool {
    match (outcome, right) {
        (Ok((root, after)), Ok((right_root, right_after))) => {
            &&& root == right_root
            &&& after.written_since(part) == right_after.written_since(whole)
            &&& is_part_of(after, right_after)
        },
        (Err(FsErrorView::NotLoaded(place)), _) => !part.nodes.contains_key(place),
        (Err(error), Err(right_error)) => error == right_error,
        _ => false,
    }
}

/// A path is stored alike in a part and in the whole. The result is what is set in both.
proof fn lemma_stored(
    path: Seq<(PrivateDirectoryView, Seq<char>)>,
    child: PrivateDirectoryView,
    part: PrivateForestView,
    whole: PrivateForestView,
) -> (set: Seq<(PrivateRefView, PrivateNodeView)>)
    requires
        is_part_of(part, whole),
    ensures
        ({
            let (root, after) = PathNodesView::stored(path, child, part);
            let (right_root, right_after) = PathNodesView::stored(path, child, whole);
            &&& root == right_root
            &&& is_part_of(after, right_after)
            &&& after.writes == part.writes + set
            &&& right_after.writes == whole.writes + set
        }),
    decreases path.len(),
{
    let private_ref = child.header.private_ref();
    let node = PrivateNodeView::Dir(child);
    let first = seq![(private_ref, node)];
    assert(part.writes.push((private_ref, node)) =~= part.writes + first);
    assert(whole.writes.push((private_ref, node)) =~= whole.writes + first);
    if path.len() == 0 {
        first
    } else {
        let parent = path.last().0.advanced().with_entry(path.last().1, private_ref);
        let rest = lemma_stored(
            path.drop_last(),
            parent,
            part.set(private_ref, node),
            whole.set(private_ref, node),
        );
        assert(part.writes + first + rest =~= part.writes + (first + rest));
        assert(whole.writes + first + rest =~= whole.writes + (first + rest));
        first + rest
    }
}

/// A path that is fixed up alike is a change alike.
proof fn lemma_fixed_up(nodes: PathNodesView, part: PrivateForestView, whole: PrivateForestView)
    requires
        is_part_of(part, whole),
    ensures
        changes_alike_or_asks(Ok(nodes.fixed_up(part)), Ok(nodes.fixed_up(whole)), part, whole),
{
    let set = lemma_stored(nodes.path, nodes.tail.advanced(), part, whole);
    assert(nodes.fixed_up(part).1.written_since(part) =~= set);
    assert(nodes.fixed_up(whole).1.written_since(whole) =~= set);
}

/// Making directories in a tree that is fetched bit by bit changes it as if all of it were
/// known, or says what to fetch.
pub proof fn law_mkdir_is_right_or_asks(
    directory: PrivateDirectoryView,
    segments: Seq<Seq<char>>,
    time: i64,
    seeds: Seq<SeedView>,
    part: PrivateForestView,
    whole: PrivateForestView,
)
    requires
        is_part_of(part, whole),
    ensures
        changes_alike_or_asks(
            directory.after_mkdir(segments, time, part, seeds),
            directory.after_mkdir(segments, time, whole, seeds),
            part,
            whole,
        ),
{
    lemma_walk(directory, Seq::empty(), segments, part, whole);
    match directory.completed(segments, time, whole, seeds) {
        Ok(nodes) => {
            lemma_fixed_up(nodes, part, whole);
        },
        Err(_) => {},
    }
}

/// Writing into a tree that is fetched bit by bit changes it as if all of it were known, or says
/// what to fetch.
pub proof fn law_write_is_right_or_asks(
    directory: PrivateDirectoryView,
    segments: Seq<Seq<char>>,
    time: i64,
    content: Seq<u8>,
    seeds: Seq<SeedView>,
    file_seed: SeedView,
    part: PrivateForestView,
    whole: PrivateForestView,
)
    requires
        is_part_of(part, whole),
    ensures
        changes_alike_or_asks(
            directory.after_write(segments, time, content, part, seeds, file_seed),
            directory.after_write(segments, time, content, whole, seeds, file_seed),
            part,
            whole,
        ),
{
    if segments.len() > 0 {
        let name = segments.last();
        lemma_walk(directory, Seq::empty(), segments.drop_last(), part, whole);
        match directory.completed(segments.drop_last(), time, whole, seeds) {
            Ok(nodes) => {
                lemma_lookup(nodes.tail, name, part, whole);
                match nodes.tail.file_to_put(name, time, content, whole, file_seed) {
                    Ok(file) => {
                        let private_ref = file.header.private_ref();
                        let node = PrivateNodeView::File(file);
                        let child = nodes.tail.with_entry(name, private_ref).advanced();
                        let part_with = part.set(private_ref, node);
                        let whole_with = whole.set(private_ref, node);
                        let set = lemma_stored(nodes.path, child, part_with, whole_with);
                        let all = seq![(private_ref, node)] + set;
                        assert(nodes.with_file(name, file, part).1.written_since(part) =~= all);
                        assert(nodes.with_file(name, file, whole).1.written_since(whole) =~= all);
                    },
                    Err(_) => {},
                }
            },
            Err(_) => {},
        }
    }
}

/// Removing from a tree that is fetched bit by bit changes it as if all of it were known, and
/// gives the same node, or says what to fetch.
pub proof fn law_rm_is_right_or_asks(
    directory: PrivateDirectoryView,
    segments: Seq<Seq<char>>,
    part: PrivateForestView,
    whole: PrivateForestView,
)
    requires
        is_part_of(part, whole),
    ensures
        match (directory.after_rm(segments, part), directory.after_rm(segments, whole)) {
            (Ok((root, after, removed)), Ok((right_root, right_after, right_removed))) => {
                &&& changes_alike_or_asks(
                    Ok((root, after)),
                    Ok((right_root, right_after)),
                    part,
                    whole,
                )
                &&& removed == right_removed
            },
            (Err(FsErrorView::NotLoaded(place)), _) => !part.nodes.contains_key(place),
            (Err(error), Err(right_error)) => error == right_error,
            _ => false,
        },
{
    if segments.len() > 0 {
        lemma_walk(directory, Seq::empty(), segments.drop_last(), part, whole);
        match directory.walk(segments.drop_last(), whole) {
            Ok(PathNodesResultView::Complete(nodes)) => {
                lemma_lookup(nodes.tail, segments.last(), part, whole);
                lemma_fixed_up(
                    PathNodesView {
                        path: nodes.path,
                        tail: nodes.tail.without_entry(segments.last()),
                    },
                    part,
                    whole,
                );
            },
            _ => {},
        }
    }
}

} // verus!
