//! What holds of the operations on the directory tree taken together.

use vstd::prelude::*;

use crate::error::{FsError, FsErrorView};
use crate::private::directory::PrivateDirectoryView;
use crate::private::forest::PrivateForestView;
use crate::private::metadata::{Metadata, UnixFsNodeKind};
use crate::private::node::{PrivateFileView, PrivateNodeHeaderView, PrivateNodeView};
use crate::private::path::{PathNodesResultView, PathNodesView, SeedView};
use crate::private::reference::{PrivateRefView, RatchetKeyView};

verus! {

/// Whether no two different nodes in a list of writes were put at one place.
pub open spec fn no_clash(writes: Seq<(PrivateRefView, PrivateNodeView)>) -> bool {
    forall|i: int, j: int|
        0 <= i < writes.len() && 0 <= j < writes.len() && (#[trigger] writes[i]).0.locator() == (
        #[trigger] writes[j]).0.locator() ==> writes[i].1 == writes[j].1
}

/// The names along a path.
pub open spec fn step_names(path: Seq<(PrivateDirectoryView, Seq<char>)>) -> Seq<Seq<char>> {
    path.map_values(|step: (PrivateDirectoryView, Seq<char>)| step.1)
}

/// A directory on a path, or the last one, as it is stored when the path is fixed up.
spec fn updated(
    path: Seq<(PrivateDirectoryView, Seq<char>)>,
    child: PrivateDirectoryView,
    index: int,
) -> PrivateDirectoryView
    decreases path.len() - index,
{
    if index < 0 || index >= path.len() {
        child
    } else {
        path[index].0.advanced().with_entry(
            path[index].1,
            updated(path, child, index + 1).header.private_ref(),
        )
    }
}

/// A write of a directory.
spec fn directory_write(directory: PrivateDirectoryView) -> (PrivateRefView, PrivateNodeView) {
    (directory.header.private_ref(), PrivateNodeView::Dir(directory))
}

/// The writes that fix a path up.
spec fn path_writes(
    path: Seq<(PrivateDirectoryView, Seq<char>)>,
    child: PrivateDirectoryView,
) -> Seq<(PrivateRefView, PrivateNodeView)> {
    Seq::new(path.len() + 1, |k: int| directory_write(updated(path, child, path.len() - k)))
}

/// The forest after a list of writes.
spec fn set_all(
    forest: PrivateForestView,
    writes: Seq<(PrivateRefView, PrivateNodeView)>,
) -> PrivateForestView
    decreases writes.len(),
{
    if writes.len() == 0 {
        forest
    } else {
        set_all(forest, writes.drop_last()).set(writes.last().0, writes.last().1)
    }
}

/// The first write of a list can be made before the rest.
proof fn lemma_set_first(
    forest: PrivateForestView,
    writes: Seq<(PrivateRefView, PrivateNodeView)>,
)
    requires
        writes.len() > 0,
    ensures
        set_all(forest, writes) == set_all(
            forest.set(writes[0].0, writes[0].1),
            writes.drop_first(),
        ),
    decreases writes.len(),
{
    if writes.len() == 1 {
        assert(writes.drop_last().len() == 0);
        assert(set_all(forest, writes.drop_last()) == forest);
        assert(set_all(forest.set(writes[0].0, writes[0].1), writes.drop_first()) == forest.set(
            writes[0].0,
            writes[0].1,
        ));
    } else {
        lemma_set_first(forest, writes.drop_last());
        assert(writes.drop_last().drop_first() =~= writes.drop_first().drop_last());
        assert(writes.drop_first().last() == writes.last());
        assert(writes.drop_last()[0] == writes[0]);
    }
}

/// What a list of writes does to a forest.
proof fn lemma_set_all(
    forest: PrivateForestView,
    writes: Seq<(PrivateRefView, PrivateNodeView)>,
)
    ensures
        set_all(forest, writes).writes == forest.writes + writes,
        set_all(forest, writes).backed == forest.backed,
        forall|private_ref: PrivateRefView|
            (forall|k: int|
                0 <= k < writes.len() ==> (#[trigger] writes[k]).0.locator()
                    != private_ref.locator()) ==> #[trigger] set_all(forest, writes).get(
                private_ref,
            ) == forest.get(private_ref),
        no_clash(writes) ==> forall|k: int|
            0 <= k < writes.len() ==> set_all(forest, writes).get((#[trigger] writes[k]).0) == Ok::<
                _,
                FsErrorView,
            >(Some(writes[k].1)),
    decreases writes.len(),
{
    if writes.len() == 0 {
        assert(forest.writes + writes =~= forest.writes);
    } else {
        let before = writes.drop_last();
        lemma_set_all(forest, before);
        assert(forest.writes + writes =~= (forest.writes + before).push(writes.last()));
        assert forall|private_ref: PrivateRefView|
            (forall|k: int|
                0 <= k < writes.len() ==> (#[trigger] writes[k]).0.locator()
                    != private_ref.locator()) implies #[trigger] set_all(forest, writes).get(
            private_ref,
        ) == forest.get(private_ref) by {
            assert forall|k: int| 0 <= k < before.len() implies (#[trigger] before[k]).0.locator()
                != private_ref.locator() by {
                assert(before[k] == writes[k]);
            }
            assert(set_all(forest, before).get(private_ref) == forest.get(private_ref));
            assert(writes[writes.len() - 1].0.locator() != private_ref.locator());
        }
        if no_clash(writes) {
            assert(no_clash(before)) by {
                assert forall|i: int, j: int|
                    0 <= i < before.len() && 0 <= j < before.len() && (
                    #[trigger] before[i]).0.locator() == (
                    #[trigger] before[j]).0.locator() implies before[i].1 == before[j].1 by {
                    assert(before[i] == writes[i]);
                    assert(before[j] == writes[j]);
                }
            }
            assert forall|k: int| 0 <= k < writes.len() implies set_all(forest, writes).get(
                (#[trigger] writes[k]).0,
            ) == Ok::<_, FsErrorView>(Some(writes[k].1)) by {
                let end = writes.len() - 1;
                assert(writes.last() == writes[end]);
                if k < end {
                    assert(before[k] == writes[k]);
                }
            }
        }
    }
}

/// Storing a path is a list of writes, from the last directory up to the root.
proof fn lemma_stored(
    path: Seq<(PrivateDirectoryView, Seq<char>)>,
    child: PrivateDirectoryView,
    forest: PrivateForestView,
)
    ensures
        PathNodesView::stored(path, child, forest) == (
            updated(path, child, 0),
            set_all(forest, path_writes(path, child)),
        ),
    decreases path.len(),
{
    let writes = path_writes(path, child);
    lemma_set_first(forest, writes);
    assert(updated(path, child, path.len() as int) == child);
    assert(writes[0] == directory_write(child));
    if path.len() == 0 {
        assert(writes.drop_first().len() == 0);
    } else {
        let parent = path.last().0.advanced().with_entry(
            path.last().1,
            child.header.private_ref(),
        );
        let above = path.drop_last();
        assert(updated(path, child, above.len() as int) == parent);
        assert forall|i: int| 0 <= i <= above.len() implies #[trigger] updated(above, parent, i)
            == updated(path, child, i) by {
            lemma_updated_above(path, child, i);
        }
        assert(writes.drop_first() =~= path_writes(above, parent));
        lemma_stored(above, parent, forest.set(writes[0].0, writes[0].1));
    }
}

/// The directories above the last step are stored as they are with a shorter path.
proof fn lemma_updated_above(
    path: Seq<(PrivateDirectoryView, Seq<char>)>,
    child: PrivateDirectoryView,
    index: int,
)
    requires
        path.len() > 0,
        0 <= index < path.len(),
    ensures
        updated(
            path.drop_last(),
            path.last().0.advanced().with_entry(path.last().1, child.header.private_ref()),
            index,
        ) == updated(path, child, index),
    decreases path.len() - index,
{
    if index + 1 < path.len() {
        lemma_updated_above(path, child, index + 1);
    } else {
        assert(updated(path, child, index + 1) == child);
    }
}

/// A walk along two paths, one after the other.
proof fn lemma_walk_in_two(
    directory: PrivateDirectoryView,
    path: Seq<(PrivateDirectoryView, Seq<char>)>,
    first: Seq<Seq<char>>,
    second: Seq<Seq<char>>,
    forest: PrivateForestView,
)
    ensures
        directory.walk_on(path, first + second, forest) == (match directory.walk_on(
            path,
            first,
            forest,
        ) {
            Ok(PathNodesResultView::Complete(nodes)) => nodes.tail.walk_on(
                nodes.path,
                second,
                forest,
            ),
            stopped => stopped,
        }),
    decreases first.len(),
{
    if first.len() == 0 {
        assert(first + second =~= second);
    } else {
        assert((first + second)[0] == first[0]);
        assert((first + second).drop_first() =~= first.drop_first() + second);
        match directory.lookup(first[0], forest) {
            Ok(Some(PrivateNodeView::Dir(child))) => {
                lemma_walk_in_two(
                    child,
                    path.push((directory, first[0])),
                    first.drop_first(),
                    second,
                    forest,
                );
            },
            _ => {},
        }
    }
}

/// The names of the steps that a walk makes.
proof fn lemma_walk_names(
    directory: PrivateDirectoryView,
    path: Seq<(PrivateDirectoryView, Seq<char>)>,
    segments: Seq<Seq<char>>,
    forest: PrivateForestView,
)
    ensures
        match directory.walk_on(path, segments, forest) {
            Ok(PathNodesResultView::Complete(nodes)) => step_names(nodes.path) == step_names(path)
                + segments,
            Ok(PathNodesResultView::MissingLink(nodes, name)) => {
                &&& path.len() <= nodes.path.len() < path.len() + segments.len()
                &&& step_names(nodes.path) == step_names(path) + segments.take(
                    nodes.path.len() - path.len(),
                )
                &&& name == segments[nodes.path.len() - path.len()]
                &&& nodes.tail.lookup(name, forest) == Ok::<_, FsErrorView>(
                    None::<PrivateNodeView>,
                )
            },
            _ => true,
        },
    decreases segments.len(),
{
    if segments.len() == 0 {
        assert(step_names(path) + segments =~= step_names(path));
    } else {
        match directory.lookup(segments[0], forest) {
            Ok(Some(PrivateNodeView::Dir(child))) => {
                let longer = path.push((directory, segments[0]));
                let rest = segments.drop_first();
                lemma_walk_names(child, longer, rest, forest);
                assert(step_names(longer) =~= step_names(path).push(segments[0]));
                match directory.walk_on(path, segments, forest) {
                    Ok(PathNodesResultView::Complete(_)) => {
                        assert(step_names(longer) + rest =~= step_names(path) + segments);
                    },
                    Ok(PathNodesResultView::MissingLink(nodes, _)) => {
                        let count = nodes.path.len() - path.len();
                        assert(step_names(longer) + rest.take(count - 1) =~= step_names(path)
                            + segments.take(count));
                    },
                    _ => {},
                }
            },
            _ => {
                assert(step_names(path) + segments.take(0) =~= step_names(path));
            },
        }
    }
}

/// The steps of a completed path have the names that were asked for.
proof fn lemma_completed_names(
    directory: PrivateDirectoryView,
    segments: Seq<Seq<char>>,
    time: i64,
    forest: PrivateForestView,
    seeds: Seq<SeedView>,
)
    ensures
        directory.completed(segments, time, forest, seeds) matches Ok(nodes) ==> step_names(
            nodes.path,
        ) == segments,
{
    let none: Seq<(PrivateDirectoryView, Seq<char>)> = Seq::empty();
    lemma_walk_names(directory, none, segments, forest);
    assert(step_names(none) =~= Seq::empty());
    match directory.walk(segments, forest) {
        Ok(PathNodesResultView::Complete(_)) => {
            assert(step_names(none) + segments =~= segments);
        },
        Ok(PathNodesResultView::MissingLink(nodes, name)) => {
            let count = nodes.path.len() as int;
            let made = PathNodesView::created(
                segments.skip(count + 1),
                time,
                nodes.tail.header.bare_name,
                seeds,
            );
            let path = nodes.path.push((nodes.tail, name)) + made.path;
            assert(step_names(nodes.path) =~= segments.take(count));
            assert forall|i: int| 0 <= i < count implies (#[trigger] nodes.path[i]).1
                == segments[i] by {
                assert(step_names(nodes.path)[i] == nodes.path[i].1);
            }
            assert(step_names(path) =~= segments);
        },
        _ => {},
    }
}

/// Whether every directory on a path is found as it was stored.
#[verifier::opaque]
spec fn all_found(
    path: Seq<(PrivateDirectoryView, Seq<char>)>,
    child: PrivateDirectoryView,
    forest: PrivateForestView,
) -> bool {
    forall|i: int|
        0 <= i <= path.len() ==> forest.get(
            (#[trigger] updated(path, child, i)).header.private_ref(),
        ) == Ok::<_, FsErrorView>(Some(PrivateNodeView::Dir(updated(path, child, i))))
}

/// The name on a path leads from one directory to the next, as both were stored.
proof fn lemma_found(
    path: Seq<(PrivateDirectoryView, Seq<char>)>,
    child: PrivateDirectoryView,
    index: int,
    forest: PrivateForestView,
)
    requires
        0 <= index < path.len(),
        all_found(path, child, forest),
    ensures
        updated(path, child, index).lookup(path[index].1, forest) == Ok::<_, FsErrorView>(
            Some(PrivateNodeView::Dir(updated(path, child, index + 1))),
        ),
{
    reveal(all_found);
    let next = updated(path, child, index + 1);
    assert(forest.get(next.header.private_ref()) == Ok::<_, FsErrorView>(
        Some(PrivateNodeView::Dir(next)),
    ));
}

/// A path whose directories are all found can be followed from one of them to a later one.
proof fn lemma_walk_updated(
    path: Seq<(PrivateDirectoryView, Seq<char>)>,
    child: PrivateDirectoryView,
    from: int,
    to: int,
    walked: Seq<(PrivateDirectoryView, Seq<char>)>,
    forest: PrivateForestView,
)
    requires
        0 <= from <= to <= path.len(),
        all_found(path, child, forest),
    ensures
        updated(path, child, from).walk_on(
            walked,
            step_names(path).subrange(from, to),
            forest,
        ) matches Ok(PathNodesResultView::Complete(nodes)) && nodes.tail == updated(
            path,
            child,
            to,
        ),
    decreases to - from,
{
    let names = step_names(path).subrange(from, to);
    let directory = updated(path, child, from);
    if from < to {
        assert(names[0] == path[from].1);
        assert(names.drop_first() =~= step_names(path).subrange(from + 1, to));
        lemma_found(path, child, from, forest);
        lemma_walk_updated(path, child, from + 1, to, walked.push((directory, names[0])), forest);
    }
}

/// After writes without a clash that hold those of a path, its directories are all found.
proof fn lemma_all_found(
    path: Seq<(PrivateDirectoryView, Seq<char>)>,
    child: PrivateDirectoryView,
    forest: PrivateForestView,
    writes: Seq<(PrivateRefView, PrivateNodeView)>,
)
    requires
        no_clash(writes),
        writes.len() > path.len(),
        writes.skip(writes.len() - path.len() - 1) == path_writes(path, child),
    ensures
        all_found(path, child, set_all(forest, writes)),
{
    reveal(all_found);
    lemma_set_all(forest, writes);
    let after = set_all(forest, writes);
    let start = writes.len() - path.len() - 1;
    assert forall|i: int| 0 <= i <= path.len() implies after.get(
        (#[trigger] updated(path, child, i)).header.private_ref(),
    ) == Ok::<_, FsErrorView>(Some(PrivateNodeView::Dir(updated(path, child, i)))) by {
        let k = path.len() - i;
        assert(writes[start + k] == path_writes(path, child)[k]);
        assert(writes[start + k] == directory_write(updated(path, child, i)));
    }
}

/// A path that was fixed up can be followed from the new root to its end, where the last
/// directory is at its next revision.
pub proof fn law_fixed_up_path_can_be_followed(nodes: PathNodesView, forest: PrivateForestView)
    requires
        no_clash(nodes.fixed_up(forest).1.written_since(forest)),
    ensures
        ({
            let (root, after) = nodes.fixed_up(forest);
            &&& root.walk(step_names(nodes.path), after) matches Ok(
                PathNodesResultView::Complete(found),
            )
            &&& step_names(found.path) == step_names(nodes.path)
            &&& found.tail == nodes.tail.advanced()
        }),
{
    let child = nodes.tail.advanced();
    let writes = path_writes(nodes.path, child);
    let (root, after) = nodes.fixed_up(forest);
    lemma_stored(nodes.path, child, forest);
    lemma_set_all(forest, writes);
    assert(after.written_since(forest) =~= writes);
    assert(writes.skip(0) =~= writes);
    lemma_all_found(nodes.path, child, forest, writes);
    let none: Seq<(PrivateDirectoryView, Seq<char>)> = Seq::empty();
    let names = step_names(nodes.path);
    lemma_walk_updated(nodes.path, child, 0, nodes.path.len() as int, none, after);
    assert(names.subrange(0, names.len() as int) =~= names);
    lemma_walk_names(root, none, names, after);
    assert(step_names(none) + names =~= names);
}

/// What is known of a tree after a file was put at the end of a path.
proof fn lemma_after_put(
    nodes: PathNodesView,
    name: Seq<char>,
    file: PrivateFileView,
    forest: PrivateForestView,
)
    requires
        no_clash(nodes.with_file(name, file, forest).1.written_since(forest)),
    ensures
        ({
            let (root, after) = nodes.with_file(name, file, forest);
            &&& root.walk(step_names(nodes.path), after) matches Ok(
                PathNodesResultView::Complete(found),
            )
            &&& found.tail == nodes.tail.with_entry(
                name,
                file.header.private_ref(),
            ).advanced()
            &&& found.tail.lookup(name, after) == Ok::<_, FsErrorView>(
                Some(PrivateNodeView::File(file)),
            )
        }),
{
    let private_ref = file.header.private_ref();
    let first = (private_ref, PrivateNodeView::File(file));
    let with_file = forest.set(private_ref, PrivateNodeView::File(file));
    let changed = PathNodesView {
        path: nodes.path,
        tail: nodes.tail.with_entry(name, private_ref),
    };
    let child = changed.tail.advanced();
    let writes = path_writes(nodes.path, child);
    let (root, after) = changed.fixed_up(with_file);
    let all = seq![first] + writes;
    lemma_stored(nodes.path, child, with_file);
    lemma_set_first(forest, all);
    assert(all.drop_first() =~= writes);
    lemma_set_all(forest, all);
    lemma_set_all(with_file, writes);
    assert(after.written_since(forest) =~= all);
    assert(after.written_since(with_file) =~= writes);
    assert(no_clash(writes)) by {
        assert forall|i: int, j: int|
            0 <= i < writes.len() && 0 <= j < writes.len() && (#[trigger] writes[i]).0.locator()
                == (#[trigger] writes[j]).0.locator() implies writes[i].1 == writes[j].1 by {
            assert(all[i + 1] == writes[i]);
            assert(all[j + 1] == writes[j]);
        }
    }
    law_fixed_up_path_can_be_followed(changed, with_file);
    assert(all[0] == first);
}

/// What was written at a path is what is read there.
pub proof fn law_read_gives_what_was_written(
    directory: PrivateDirectoryView,
    segments: Seq<Seq<char>>,
    time: i64,
    content: Seq<u8>,
    forest: PrivateForestView,
    seeds: Seq<SeedView>,
    file_seed: SeedView,
)
    requires
        directory.after_write(segments, time, content, forest, seeds, file_seed) is Ok,
        no_clash(
            directory.after_write(segments, time, content, forest, seeds, file_seed)->Ok_0.1
                .written_since(forest),
        ),
    ensures
        ({
            let (root, after) = directory.after_write(
                segments,
                time,
                content,
                forest,
                seeds,
                file_seed,
            )->Ok_0;
            root.content_at(segments, after) == Ok::<_, FsErrorView>(content)
        }),
{
    let parents = segments.drop_last();
    let name = segments.last();
    let nodes = directory.completed(parents, time, forest, seeds)->Ok_0;
    let file = nodes.tail.file_to_put(name, time, content, forest, file_seed)->Ok_0;
    lemma_completed_names(directory, parents, time, forest, seeds);
    lemma_after_put(nodes, name, file, forest);
}

/// After directories were made along a path, there is a directory at its end: the one that was
/// there, at its next revision, or else one that is empty.
pub proof fn law_made_directory_is_found(
    directory: PrivateDirectoryView,
    segments: Seq<Seq<char>>,
    time: i64,
    forest: PrivateForestView,
    seeds: Seq<SeedView>,
)
    requires
        directory.after_mkdir(segments, time, forest, seeds) is Ok,
        no_clash(
            directory.after_mkdir(segments, time, forest, seeds)->Ok_0.1.written_since(forest),
        ),
    ensures
        ({
            let (root, after) = directory.after_mkdir(segments, time, forest, seeds)->Ok_0;
            &&& root.walk(segments, after) matches Ok(PathNodesResultView::Complete(found))
            &&& root.node_at(segments, after) == Ok::<_, FsErrorView>(
                Some(PrivateNodeView::Dir(found.tail)),
            )
            &&& match directory.walk(segments, forest) {
                Ok(PathNodesResultView::Complete(before)) => found.tail == before.tail.advanced(),
                _ => found.tail.content.entries == Map::<Seq<char>, PrivateRefView>::empty(),
            }
        }),
{
    let nodes = directory.completed(segments, time, forest, seeds)->Ok_0;
    let (root, after) = nodes.fixed_up(forest);
    lemma_completed_names(directory, segments, time, forest, seeds);
    law_fixed_up_path_can_be_followed(nodes, forest);
    lemma_walk_is_node(root, segments, after);
}

/// A directory is the node at the end of a path exactly if it is at the end of the walk there.
proof fn lemma_walk_is_node(
    directory: PrivateDirectoryView,
    segments: Seq<Seq<char>>,
    forest: PrivateForestView,
)
    ensures
        directory.walk(segments, forest) matches Ok(PathNodesResultView::Complete(found))
            ==> directory.node_at(segments, forest) == Ok::<_, FsErrorView>(
            Some(PrivateNodeView::Dir(found.tail)),
        ),
        directory.node_at(segments, forest) matches Ok(Some(PrivateNodeView::Dir(last)))
            ==> directory.walk(segments, forest) matches Ok(PathNodesResultView::Complete(found))
            && found.tail == last,
{
    if segments.len() > 0 {
        let last = seq![segments.last()];
        lemma_walk_in_two(directory, Seq::empty(), segments.drop_last(), last, forest);
        assert(segments.drop_last() + last =~= segments);
        match directory.walk(segments.drop_last(), forest) {
            Ok(PathNodesResultView::Complete(nodes)) => {
                assert(last[0] == segments.last());
                match nodes.tail.lookup(last[0], forest) {
                    Ok(Some(PrivateNodeView::Dir(child))) => {
                        assert(last.drop_first().len() == 0);
                        assert(nodes.tail.walk_on(nodes.path, last, forest) == child.walk_on(
                            nodes.path.push((nodes.tail, last[0])),
                            last.drop_first(),
                            forest,
                        ));
                    },
                    _ => {},
                }
            },
            _ => {},
        }
    }
}

/// After a node was removed, there is none at its path, and it cannot be removed again.
pub proof fn law_removed_node_is_gone(
    directory: PrivateDirectoryView,
    segments: Seq<Seq<char>>,
    forest: PrivateForestView,
)
    requires
        directory.after_rm(segments, forest) is Ok,
        no_clash(directory.after_rm(segments, forest)->Ok_0.1.written_since(forest)),
    ensures
        ({
            let (root, after, _) = directory.after_rm(segments, forest)->Ok_0;
            &&& root.node_at(segments, after) == Ok::<_, FsErrorView>(None::<PrivateNodeView>)
            &&& !root.dangles(segments, after)
            &&& root.after_rm(segments, after) == Err::<
                (PrivateDirectoryView, PrivateForestView, PrivateNodeView),
                _,
            >(FsErrorView::Plain(FsError::NotFound))
        }),
{
    let parents = segments.drop_last();
    let nodes = directory.walk(parents, forest)->Ok_0->Complete_0;
    let changed = PathNodesView {
        path: nodes.path,
        tail: nodes.tail.without_entry(segments.last()),
    };
    let none: Seq<(PrivateDirectoryView, Seq<char>)> = Seq::empty();
    lemma_walk_names(directory, none, parents, forest);
    assert(step_names(none) + parents =~= parents);
    law_fixed_up_path_can_be_followed(changed, forest);
}

/// After a file was written, the listing of its directory shows it. The other names there are
/// those that were there before.
pub proof fn law_listing_shows_what_was_written(
    directory: PrivateDirectoryView,
    segments: Seq<Seq<char>>,
    time: i64,
    content: Seq<u8>,
    forest: PrivateForestView,
    seeds: Seq<SeedView>,
    file_seed: SeedView,
    names: Seq<Seq<char>>,
)
    requires
        directory.after_write(segments, time, content, forest, seeds, file_seed) is Ok,
        no_clash(
            directory.after_write(segments, time, content, forest, seeds, file_seed)->Ok_0.1
                .written_since(forest),
        ),
        ({
            let (root, after) = directory.after_write(
                segments,
                time,
                content,
                forest,
                seeds,
                file_seed,
            )->Ok_0;
            root.names_at(segments.drop_last(), after, names)
        }),
    ensures
        ({
            let (root, after) = directory.after_write(
                segments,
                time,
                content,
                forest,
                seeds,
                file_seed,
            )->Ok_0;
            &&& names.contains(segments.last())
            &&& root.listed_at(segments.drop_last(), after, names) matches Ok(list)
                ==> list.contains(
                (segments.last(), Metadata::created_at(time, UnixFsNodeKind::File)),
            )
        }),
        directory.walk(segments.drop_last(), forest) matches Ok(
            PathNodesResultView::Complete(before),
        ) ==> forall|name: Seq<char>| #[trigger]
            names.contains(name) <==> name == segments.last()
                || before.tail.content.entries.contains_key(name),
{
    let parents = segments.drop_last();
    let name = segments.last();
    let nodes = directory.completed(parents, time, forest, seeds)->Ok_0;
    let file = nodes.tail.file_to_put(name, time, content, forest, file_seed)->Ok_0;
    let (root, after) = nodes.with_file(name, file, forest);
    lemma_completed_names(directory, parents, time, forest, seeds);
    lemma_after_put(nodes, name, file, forest);
    let found = root.walk(parents, after)->Ok_0->Complete_0;
    assert(found.tail.content.entries.contains_key(name));
    assert forall|other: Seq<char>| #[trigger] names.contains(other)
        <==> found.tail.content.entries.contains_key(other) by {}
    lemma_listed(found.tail, names, after);
    assert(names.contains(name));
    let at = choose|i: int| 0 <= i < names.len() && names[i] == name;
    if root.listed_at(parents, after, names) is Ok {
        let list = found.tail.listed(names, after)->Ok_0;
        assert(list[at] == (name, Metadata::created_at(time, UnixFsNodeKind::File)));
    }
}

/// Whether an item is how a name in a directory is listed.
spec fn lists(
    directory: PrivateDirectoryView,
    forest: PrivateForestView,
    name: Seq<char>,
    item: (Seq<char>, Metadata),
) -> bool {
    directory.lookup(name, forest) matches Ok(Some(node)) && item == (name, node.metadata())
}

/// What a listing holds.
proof fn lemma_listed(
    directory: PrivateDirectoryView,
    names: Seq<Seq<char>>,
    forest: PrivateForestView,
)
    ensures
        directory.listed(names, forest) matches Ok(list) ==> list.len() == names.len() && forall|
            i: int,
        |
            0 <= i < names.len() ==> lists(directory, forest, names[i], #[trigger] list[i]),
    decreases names.len(),
{
    if names.len() > 0 {
        lemma_listed(directory, names.drop_last(), forest);
        match directory.listed(names, forest) {
            Ok(list) => {
                let shorter = directory.listed(names.drop_last(), forest)->Ok_0;
                assert forall|i: int| 0 <= i < names.len() implies lists(
                    directory,
                    forest,
                    names[i],
                    #[trigger] list[i],
                ) by {
                    if i < names.len() - 1 {
                        assert(list[i] == shorter[i]);
                        assert(names.drop_last()[i] == names[i]);
                    }
                }
            },
            Err(_) => {},
        }
    }
}

/// A change to the tree moves the root on to its next revision: its name and its inumber stay.
pub proof fn law_root_moves_on(nodes: PathNodesView, forest: PrivateForestView)
    ensures
        nodes.fixed_up(forest).0.header == (if nodes.path.len() == 0 {
            nodes.tail
        } else {
            nodes.path[0].0
        }).header.advanced(),
{
    lemma_stored(nodes.path, nodes.tail.advanced(), forest);
}

/// No name leads anywhere in a new directory.
pub proof fn law_new_directory_is_empty(
    parent_bare_name: Seq<Seq<u8>>,
    inumber: Seq<u8>,
    ratchet_seed: Seq<u8>,
    time: i64,
    name: Seq<char>,
    forest: PrivateForestView,
)
    ensures
        PrivateDirectoryView::fresh(parent_bare_name, inumber, ratchet_seed, time).lookup(
            name,
            forest,
        ) == Ok::<_, FsErrorView>(None::<PrivateNodeView>),
{
}

/// Whether no reference that is followed along a path leads to a place in a list of writes.
pub open spec fn avoids(
    directory: PrivateDirectoryView,
    segments: Seq<Seq<char>>,
    forest: PrivateForestView,
    writes: Seq<(PrivateRefView, PrivateNodeView)>,
) -> bool
    decreases segments.len(),
{
    segments.len() == 0 || {
        let name = segments[0];
        &&& directory.content.entries.contains_key(name) ==> forall|k: int|
            0 <= k < writes.len() ==> (#[trigger] writes[k]).0.locator()
                != directory.content.entries[name].locator()
        &&& directory.lookup(name, forest) matches Ok(Some(PrivateNodeView::Dir(child)))
            ==> avoids(child, segments.drop_first(), forest, writes)
    }
}

/// The node at the end of a path, if it is found, step by step.
spec fn find(
    directory: PrivateDirectoryView,
    segments: Seq<Seq<char>>,
    forest: PrivateForestView,
) -> Option<PrivateNodeView>
    decreases segments.len(),
{
    if segments.len() == 0 {
        Some(PrivateNodeView::Dir(directory))
    } else {
        match directory.lookup(segments[0], forest) {
            Ok(Some(PrivateNodeView::Dir(child))) => find(child, segments.drop_first(), forest),
            Ok(Some(PrivateNodeView::File(file))) => if segments.len() == 1 {
                Some(PrivateNodeView::File(file))
            } else {
                None
            },
            _ => None,
        }
    }
}

/// A node is found step by step where the walk to its directory finds it.
proof fn lemma_find(
    directory: PrivateDirectoryView,
    path: Seq<(PrivateDirectoryView, Seq<char>)>,
    segments: Seq<Seq<char>>,
    forest: PrivateForestView,
)
    requires
        segments.len() > 0,
    ensures
        find(directory, segments, forest) == (match directory.walk_on(
            path,
            segments.drop_last(),
            forest,
        ) {
            Ok(PathNodesResultView::Complete(nodes)) => match nodes.tail.lookup(
                segments.last(),
                forest,
            ) {
                Ok(found) => found,
                Err(_) => None,
            },
            _ => None,
        }),
    decreases segments.len(),
{
    if segments.len() == 1 {
        match directory.lookup(segments[0], forest) {
            Ok(Some(PrivateNodeView::Dir(child))) => {
                assert(find(child, segments.drop_first(), forest) == Some(
                    PrivateNodeView::Dir(child),
                ));
            },
            _ => {},
        }
    } else {
        let name = segments[0];
        assert(segments.drop_last()[0] == name);
        match directory.lookup(name, forest) {
            Ok(Some(PrivateNodeView::Dir(child))) => {
                lemma_find(child, path.push((directory, name)), segments.drop_first(), forest);
                assert(segments.drop_first().drop_last() =~= segments.drop_last().drop_first());
            },
            _ => {},
        }
    }
}

/// A node whose path avoids the writes is found as before them.
proof fn lemma_find_after(
    directory: PrivateDirectoryView,
    segments: Seq<Seq<char>>,
    forest: PrivateForestView,
    writes: Seq<(PrivateRefView, PrivateNodeView)>,
)
    requires
        avoids(directory, segments, forest, writes),
    ensures
        find(directory, segments, set_all(forest, writes)) == find(directory, segments, forest),
    decreases segments.len(),
{
    lemma_set_all(forest, writes);
    if segments.len() > 0 {
        assert(directory.lookup(segments[0], set_all(forest, writes)) == directory.lookup(
            segments[0],
            forest,
        ));
        match directory.lookup(segments[0], forest) {
            Ok(Some(PrivateNodeView::Dir(child))) => {
                lemma_find_after(child, segments.drop_first(), forest, writes);
            },
            _ => {},
        }
    }
}

/// The directory that a path leads to after some steps.
spec fn directory_at(nodes: PathNodesView, index: int) -> PrivateDirectoryView {
    if index < nodes.path.len() {
        nodes.path[index].0
    } else {
        nodes.tail
    }
}

/// Whether the name at one step of a path leads to the next directory, or to nothing yet.
spec fn link_at(nodes: PathNodesView, index: int, forest: PrivateForestView) -> bool {
    let next = nodes.path[index].0.lookup(nodes.path[index].1, forest);
    ||| next == Ok::<_, FsErrorView>(None::<PrivateNodeView>)
    ||| next == Ok::<_, FsErrorView>(Some(PrivateNodeView::Dir(directory_at(nodes, index + 1))))
}

/// Whether each name on a path leads to the next directory, or to nothing yet.
spec fn linked(nodes: PathNodesView, from: int, forest: PrivateForestView) -> bool {
    forall|i: int| from <= i < nodes.path.len() ==> #[trigger] link_at(nodes, i, forest)
}

/// A walk goes from each directory to the next one.
proof fn lemma_walk_linked(
    directory: PrivateDirectoryView,
    path: Seq<(PrivateDirectoryView, Seq<char>)>,
    segments: Seq<Seq<char>>,
    forest: PrivateForestView,
)
    ensures
        match directory.walk_on(path, segments, forest) {
            Ok(PathNodesResultView::Complete(nodes))
            | Ok(PathNodesResultView::MissingLink(nodes, _)) => {
                &&& path.len() <= nodes.path.len()
                &&& nodes.path.take(path.len() as int) == path
                &&& directory_at(nodes, path.len() as int) == directory
                &&& linked(nodes, path.len() as int, forest)
            },
            _ => true,
        },
    decreases segments.len(),
{
    assert(path.take(path.len() as int) =~= path);
    if segments.len() > 0 {
        match directory.lookup(segments[0], forest) {
            Ok(Some(PrivateNodeView::Dir(child))) => {
                let longer = path.push((directory, segments[0]));
                lemma_walk_linked(child, longer, segments.drop_first(), forest);
                match directory.walk_on(path, segments, forest) {
                    Ok(PathNodesResultView::Complete(nodes))
                    | Ok(PathNodesResultView::MissingLink(nodes, _)) => {
                        let at = path.len() as int;
                        assert(nodes.path.take(at) =~= longer.take(at));
                        assert(longer.take(at) =~= path);
                        assert(nodes.path[at] == nodes.path.take(at + 1)[at]);
                        assert(nodes.path[at] == (directory, segments[0]));
                        assert(link_at(nodes, at, forest));
                    },
                    _ => {},
                }
            },
            _ => {},
        }
    }
}

/// A completed path goes from each directory to the next one, or to one that is new.
proof fn lemma_completed_linked(
    directory: PrivateDirectoryView,
    segments: Seq<Seq<char>>,
    time: i64,
    forest: PrivateForestView,
    seeds: Seq<SeedView>,
)
    ensures
        directory.completed(segments, time, forest, seeds) matches Ok(nodes) ==> directory_at(
            nodes,
            0,
        ) == directory && linked(nodes, 0, forest),
{
    let none: Seq<(PrivateDirectoryView, Seq<char>)> = Seq::empty();
    lemma_walk_linked(directory, none, segments, forest);
    lemma_walk_names(directory, none, segments, forest);
    match directory.walk(segments, forest) {
        Ok(PathNodesResultView::MissingLink(so_far, name)) => {
            let count = so_far.path.len() as int;
            let made = PathNodesView::created(
                segments.skip(count + 1),
                time,
                so_far.tail.header.bare_name,
                seeds,
            );
            let nodes = directory.completed(segments, time, forest, seeds)->Ok_0;
            assert forall|i: int| 0 <= i < nodes.path.len() implies #[trigger] link_at(
                nodes,
                i,
                forest,
            ) by {
                if i < count {
                    assert(link_at(so_far, i, forest));
                    assert(nodes.path[i] == so_far.path[i]);
                    assert(directory_at(nodes, i + 1) == directory_at(so_far, i + 1));
                } else if i == count {
                    assert(nodes.path[i] == (so_far.tail, name));
                } else {
                    assert(nodes.path[i] == made.path[i - count - 1]);
                }
            }
        },
        _ => {},
    }
}

/// A node away from the path that was fixed up is found as before.
proof fn lemma_find_elsewhere(
    nodes: PathNodesView,
    child: PrivateDirectoryView,
    index: int,
    segments: Seq<Seq<char>>,
    forest: PrivateForestView,
    writes: Seq<(PrivateRefView, PrivateNodeView)>,
)
    requires
        0 <= index <= nodes.path.len(),
        linked(nodes, 0, forest),
        find(directory_at(nodes, index), segments, forest) is Some,
        avoids(directory_at(nodes, index), segments, forest, writes),
        all_found(nodes.path, child, set_all(forest, writes)),
        !segments.is_prefix_of(step_names(nodes.path).skip(index)),
        segments.len() > nodes.path.len() - index && step_names(nodes.path).skip(
            index,
        ).is_prefix_of(segments) ==> {
            let name = segments[nodes.path.len() - index];
            &&& child.content.entries.contains_key(name)
                == nodes.tail.content.entries.contains_key(name)
            &&& child.content.entries[name] == nodes.tail.content.entries[name]
        },
    ensures
        find(updated(nodes.path, child, index), segments, set_all(forest, writes)) == find(
            directory_at(nodes, index),
            segments,
            forest,
        ),
    decreases nodes.path.len() - index,
{
    let after = set_all(forest, writes);
    let names = step_names(nodes.path).skip(index);
    let old_directory = directory_at(nodes, index);
    let new_directory = updated(nodes.path, child, index);
    assert(segments.len() > 0) by {
        if segments.len() == 0 {
            assert(segments =~= names.subrange(0, 0));
        }
    }
    let name = segments[0];
    let rest = segments.drop_first();
    if index < nodes.path.len() && name == nodes.path[index].1 {
        assert(names[0] == name);
        assert(names.drop_first() =~= step_names(nodes.path).skip(index + 1));
        let next = updated(nodes.path, child, index + 1);
        lemma_found(nodes.path, child, index, after);
        assert(nodes.path[index].0 == old_directory);
        assert(link_at(nodes, index, forest));
        assert(old_directory.lookup(name, forest) == Ok::<_, FsErrorView>(
            Some(PrivateNodeView::Dir(directory_at(nodes, index + 1))),
        ));
        lemma_prefix_without_first(segments, names);
        lemma_prefix_without_first(names, segments);
        if segments.len() > nodes.path.len() - index {
            assert(rest[nodes.path.len() - index - 1] == segments[nodes.path.len() - index]);
        }
        lemma_find_elsewhere(nodes, child, index + 1, rest, forest, writes);
    } else {
        if index == nodes.path.len() {
            assert(names =~= segments.subrange(0, 0));
        }
        assert(new_directory.content.entries.contains_key(name)
            == old_directory.content.entries.contains_key(name));
        assert(new_directory.content.entries[name] == old_directory.content.entries[name]);
        lemma_same_lookup(old_directory, new_directory, name, forest, writes);
        match old_directory.lookup(name, forest) {
            Ok(Some(PrivateNodeView::Dir(below))) => {
                lemma_find_after(below, rest, forest, writes);
            },
            _ => {},
        }
    }
}

/// One sequence is a prefix of another that starts alike if the rest is one of the rest.
proof fn lemma_prefix_without_first(left: Seq<Seq<char>>, right: Seq<Seq<char>>)
    requires
        left.len() > 0,
        right.len() > 0,
        left[0] == right[0],
    ensures
        left.drop_first().is_prefix_of(right.drop_first()) == left.is_prefix_of(right),
{
    let less = left.drop_first();
    let rest = right.drop_first();
    if left.is_prefix_of(right) {
        assert forall|i: int| 0 <= i < less.len() implies less[i] == rest[i] by {
            assert(left[i + 1] == right.subrange(0, left.len() as int)[i + 1]);
        }
        assert(less =~= rest.subrange(0, less.len() as int));
    }
    if less.is_prefix_of(rest) {
        assert forall|i: int| 0 <= i < left.len() implies left[i] == right[i] by {
            if i > 0 {
                assert(less[i - 1] == rest.subrange(0, less.len() as int)[i - 1]);
            }
        }
        assert(left =~= right.subrange(0, left.len() as int));
    }
}

/// A name that leads to the same place in two directories leads to the same node there, before
/// and after writes to other places.
proof fn lemma_same_lookup(
    old_directory: PrivateDirectoryView,
    new_directory: PrivateDirectoryView,
    name: Seq<char>,
    forest: PrivateForestView,
    writes: Seq<(PrivateRefView, PrivateNodeView)>,
)
    requires
        new_directory.content.entries.contains_key(name)
            == old_directory.content.entries.contains_key(name),
        new_directory.content.entries[name] == old_directory.content.entries[name],
        old_directory.content.entries.contains_key(name) ==> forall|k: int|
            0 <= k < writes.len() ==> (#[trigger] writes[k]).0.locator()
                != old_directory.content.entries[name].locator(),
    ensures
        new_directory.lookup(name, set_all(forest, writes)) == old_directory.lookup(name, forest),
{
    lemma_set_all(forest, writes);
}

/// A node away from a path that was fixed up is at its path as before.
proof fn lemma_node_elsewhere(
    directory: PrivateDirectoryView,
    nodes: PathNodesView,
    child: PrivateDirectoryView,
    other: Seq<Seq<char>>,
    node: PrivateNodeView,
    forest: PrivateForestView,
    writes: Seq<(PrivateRefView, PrivateNodeView)>,
)
    requires
        directory_at(nodes, 0) == directory,
        linked(nodes, 0, forest),
        directory.node_at(other, forest) == Ok::<_, FsErrorView>(Some(node)),
        avoids(directory, other, forest, writes),
        all_found(nodes.path, child, set_all(forest, writes)),
        !other.is_prefix_of(step_names(nodes.path)),
        other.len() > nodes.path.len() && step_names(nodes.path).is_prefix_of(other) ==> {
            let name = other[nodes.path.len() as int];
            &&& child.content.entries.contains_key(name)
                == nodes.tail.content.entries.contains_key(name)
            &&& child.content.entries[name] == nodes.tail.content.entries[name]
        },
    ensures
        updated(nodes.path, child, 0).node_at(other, set_all(forest, writes)) == Ok::<
            _,
            FsErrorView,
        >(Some(node)),
{
    let names = step_names(nodes.path);
    assert(other.len() > 0) by {
        if other.len() == 0 {
            assert(other =~= names.subrange(0, 0));
        }
    }
    assert(names.skip(0) =~= names);
    lemma_find(directory, Seq::empty(), other, forest);
    lemma_find_elsewhere(nodes, child, 0, other, forest, writes);
    lemma_find(updated(nodes.path, child, 0), Seq::empty(), other, set_all(forest, writes));
}

/// A write leaves every node as it is whose path neither is part of the written path nor leads
/// to a place that was written to.
#[verifier::rlimit(40)]
pub proof fn law_write_leaves_other_nodes(
    directory: PrivateDirectoryView,
    segments: Seq<Seq<char>>,
    time: i64,
    content: Seq<u8>,
    forest: PrivateForestView,
    seeds: Seq<SeedView>,
    file_seed: SeedView,
    other: Seq<Seq<char>>,
    node: PrivateNodeView,
)
    requires
        directory.after_write(segments, time, content, forest, seeds, file_seed) is Ok,
        no_clash(
            directory.after_write(segments, time, content, forest, seeds, file_seed)->Ok_0.1
                .written_since(forest),
        ),
        directory.node_at(other, forest) == Ok::<_, FsErrorView>(Some(node)),
        !other.is_prefix_of(segments),
        avoids(
            directory,
            other,
            forest,
            directory.after_write(segments, time, content, forest, seeds, file_seed)->Ok_0.1
                .written_since(forest),
        ),
    ensures
        ({
            let (root, after) = directory.after_write(
                segments,
                time,
                content,
                forest,
                seeds,
                file_seed,
            )->Ok_0;
            root.node_at(other, after) == Ok::<_, FsErrorView>(Some(node))
        }),
{
    let parents = segments.drop_last();
    let name = segments.last();
    let nodes = directory.completed(parents, time, forest, seeds)->Ok_0;
    let file = nodes.tail.file_to_put(name, time, content, forest, file_seed)->Ok_0;
    let private_ref = file.header.private_ref();
    let first = (private_ref, PrivateNodeView::File(file));
    let child = nodes.tail.with_entry(name, private_ref).advanced();
    let writes = seq![first] + path_writes(nodes.path, child);
    lemma_completed_names(directory, parents, time, forest, seeds);
    lemma_completed_linked(directory, parents, time, forest, seeds);
    lemma_stored(nodes.path, child, forest.set(first.0, first.1));
    lemma_set_first(forest, writes);
    assert(writes.drop_first() =~= path_writes(nodes.path, child));
    lemma_set_all(forest, writes);
    assert(set_all(forest, writes).written_since(forest) =~= writes);
    assert(writes.skip(1) =~= path_writes(nodes.path, child));
    lemma_all_found(nodes.path, child, forest, writes);
    lemma_not_prefix_of_parents(other, segments);
    if other.len() > parents.len() && parents.is_prefix_of(other) && other[parents.len() as int]
        == name {
        lemma_nothing_below_written(directory, segments, other, forest);
    }
    lemma_node_elsewhere(directory, nodes, child, other, node, forest, writes);
}

/// After a file was written, what was written is read at its path, and a file at another path
/// whose references lead to no place that was written to is read as before.
pub proof fn law_read_after_write(
    directory: PrivateDirectoryView,
    segments: Seq<Seq<char>>,
    time: i64,
    content: Seq<u8>,
    forest: PrivateForestView,
    seeds: Seq<SeedView>,
    file_seed: SeedView,
    other: Seq<Seq<char>>,
    other_content: Seq<u8>,
)
    requires
        directory.after_write(segments, time, content, forest, seeds, file_seed) is Ok,
        no_clash(
            directory.after_write(segments, time, content, forest, seeds, file_seed)->Ok_0.1
                .written_since(forest),
        ),
        other != segments,
        directory.content_at(other, forest) == Ok::<_, FsErrorView>(other_content),
        avoids(
            directory,
            other,
            forest,
            directory.after_write(segments, time, content, forest, seeds, file_seed)->Ok_0.1
                .written_since(forest),
        ),
    ensures
        ({
            let (root, after) = directory.after_write(
                segments,
                time,
                content,
                forest,
                seeds,
                file_seed,
            )->Ok_0;
            &&& root.content_at(segments, after) == Ok::<_, FsErrorView>(content)
            &&& root.content_at(other, after) == Ok::<_, FsErrorView>(other_content)
        }),
{
    law_read_gives_what_was_written(
        directory,
        segments,
        time,
        content,
        forest,
        seeds,
        file_seed,
    );
    let node = directory.node_at(other, forest)->Ok_0->0;
    if other.is_prefix_of(segments) {
        lemma_no_way_through_file(directory, segments, other, forest);
    }
    law_write_leaves_other_nodes(
        directory,
        segments,
        time,
        content,
        forest,
        seeds,
        file_seed,
        other,
        node,
    );
}

/// A path that goes on from a file does not lead to a directory.
proof fn lemma_no_way_through_file(
    directory: PrivateDirectoryView,
    segments: Seq<Seq<char>>,
    other: Seq<Seq<char>>,
    forest: PrivateForestView,
)
    requires
        other.len() > 0,
        other != segments,
        other.is_prefix_of(segments),
        directory.node_at(other, forest) matches Ok(Some(PrivateNodeView::File(_))),
    ensures
        directory.walk(segments.drop_last(), forest) matches Ok(
            PathNodesResultView::NotADirectory(_, _),
        ),
{
    let parents = segments.drop_last();
    let way = other.drop_last();
    assert forall|i: int| 0 <= i < other.len() implies other[i] == segments[i] by {
        assert(other[i] == segments.subrange(0, other.len() as int)[i]);
    }
    if other.len() == segments.len() {
        assert(other =~= segments);
    }
    let rest = parents.skip(way.len() as int);
    assert(parents =~= way + rest);
    lemma_walk_in_two(directory, Seq::empty(), way, rest, forest);
    assert(rest[0] == other.last());
}

/// What is no prefix of a path is no prefix of the path to its directory.
proof fn lemma_not_prefix_of_parents(other: Seq<Seq<char>>, segments: Seq<Seq<char>>)
    requires
        segments.len() > 0,
        !other.is_prefix_of(segments),
    ensures
        !other.is_prefix_of(segments.drop_last()),
{
    let parents = segments.drop_last();
    if other.is_prefix_of(parents) {
        assert(other =~= segments.subrange(0, other.len() as int)) by {
            assert forall|i: int| 0 <= i < other.len() implies other[i] == segments[i] by {
                assert(other[i] == parents.subrange(0, other.len() as int)[i]);
            }
        }
    }
}

/// Where a path goes on from the end of another, there is a directory.
proof fn lemma_nothing_below_written(
    directory: PrivateDirectoryView,
    segments: Seq<Seq<char>>,
    other: Seq<Seq<char>>,
    forest: PrivateForestView,
)
    requires
        segments.len() > 0,
        other.len() >= segments.len(),
        segments.drop_last().is_prefix_of(other),
        other[segments.len() - 1] == segments.last(),
        !other.is_prefix_of(segments),
        directory.node_at(other, forest) matches Ok(Some(_)),
    ensures
        directory.walk(segments.drop_last(), forest) matches Ok(
            PathNodesResultView::Complete(nodes),
        ) && nodes.tail.lookup(segments.last(), forest) matches Ok(Some(PrivateNodeView::Dir(_))),
{
    let parents = segments.drop_last();
    assert forall|i: int| 0 <= i < segments.len() implies other[i] == segments[i] by {
        if i < parents.len() {
            assert(parents[i] == other.subrange(0, parents.len() as int)[i]);
        }
    }
    if other.len() == segments.len() {
        assert(other =~= segments.subrange(0, other.len() as int));
    }
    let rest = other.drop_last().skip(parents.len() as int);
    assert(other.drop_last() =~= parents + rest);
    lemma_walk_in_two(directory, Seq::empty(), parents, rest, forest);
    assert(rest[0] == segments.last());
}

/// Making directories leaves every node as it is whose path neither is part of the path of the
/// directories nor leads to a place that was written to.
pub proof fn law_mkdir_leaves_other_nodes(
    directory: PrivateDirectoryView,
    segments: Seq<Seq<char>>,
    time: i64,
    forest: PrivateForestView,
    seeds: Seq<SeedView>,
    other: Seq<Seq<char>>,
    node: PrivateNodeView,
)
    requires
        directory.after_mkdir(segments, time, forest, seeds) is Ok,
        no_clash(
            directory.after_mkdir(segments, time, forest, seeds)->Ok_0.1.written_since(forest),
        ),
        directory.node_at(other, forest) == Ok::<_, FsErrorView>(Some(node)),
        !other.is_prefix_of(segments),
        avoids(
            directory,
            other,
            forest,
            directory.after_mkdir(segments, time, forest, seeds)->Ok_0.1.written_since(forest),
        ),
    ensures
        ({
            let (root, after) = directory.after_mkdir(segments, time, forest, seeds)->Ok_0;
            root.node_at(other, after) == Ok::<_, FsErrorView>(Some(node))
        }),
{
    let nodes = directory.completed(segments, time, forest, seeds)->Ok_0;
    let child = nodes.tail.advanced();
    let writes = path_writes(nodes.path, child);
    lemma_completed_names(directory, segments, time, forest, seeds);
    lemma_completed_linked(directory, segments, time, forest, seeds);
    lemma_stored(nodes.path, child, forest);
    lemma_set_all(forest, writes);
    assert(set_all(forest, writes).written_since(forest) =~= writes);
    assert(writes.skip(0) =~= writes);
    lemma_all_found(nodes.path, child, forest, writes);
    lemma_node_elsewhere(directory, nodes, child, other, node, forest, writes);
}

/// A removal leaves every node as it is whose path neither is part of the path of the removed
/// node, nor goes on from it, nor leads to a place that was written to.
pub proof fn law_rm_leaves_other_nodes(
    directory: PrivateDirectoryView,
    segments: Seq<Seq<char>>,
    forest: PrivateForestView,
    other: Seq<Seq<char>>,
    node: PrivateNodeView,
)
    requires
        directory.after_rm(segments, forest) is Ok,
        no_clash(directory.after_rm(segments, forest)->Ok_0.1.written_since(forest)),
        directory.node_at(other, forest) == Ok::<_, FsErrorView>(Some(node)),
        !other.is_prefix_of(segments),
        !segments.is_prefix_of(other),
        avoids(
            directory,
            other,
            forest,
            directory.after_rm(segments, forest)->Ok_0.1.written_since(forest),
        ),
    ensures
        ({
            let (root, after, _) = directory.after_rm(segments, forest)->Ok_0;
            root.node_at(other, after) == Ok::<_, FsErrorView>(Some(node))
        }),
{
    let parents = segments.drop_last();
    let name = segments.last();
    let nodes = directory.walk(parents, forest)->Ok_0->Complete_0;
    let child = nodes.tail.without_entry(name).advanced();
    let writes = path_writes(nodes.path, child);
    let none: Seq<(PrivateDirectoryView, Seq<char>)> = Seq::empty();
    lemma_walk_names(directory, none, parents, forest);
    assert(step_names(none) + parents =~= parents);
    lemma_walk_linked(directory, none, parents, forest);
    lemma_stored(nodes.path, child, forest);
    lemma_set_all(forest, writes);
    assert(set_all(forest, writes).written_since(forest) =~= writes);
    assert(writes.skip(0) =~= writes);
    lemma_all_found(nodes.path, child, forest, writes);
    lemma_not_prefix_of_parents(other, segments);
    if other.len() > parents.len() && parents.is_prefix_of(other) && other[parents.len() as int]
        == name {
        assert(segments =~= other.subrange(0, segments.len() as int)) by {
            assert forall|i: int| 0 <= i < segments.len() implies segments[i] == other[i] by {
                if i < parents.len() {
                    assert(parents[i] == other.subrange(0, parents.len() as int)[i]);
                }
            }
        }
    }
    lemma_node_elsewhere(directory, nodes, child, other, node, forest, writes);
}

/// Whether `after` is the next revision of `before` with nothing else changed than what one name
/// leads to.
pub open spec fn changed_at(
    before: PrivateDirectoryView,
    after: PrivateDirectoryView,
    name: Seq<char>,
) -> bool {
    &&& after.header == before.header.advanced()
    &&& after.content.metadata == before.content.metadata
    &&& after.content.entries.remove(name) == before.content.entries.remove(name)
}

/// A directory that the steps of a path lead to is the one of that step.
proof fn lemma_walk_to_step(
    nodes: PathNodesView,
    from: int,
    to: int,
    walked: Seq<(PrivateDirectoryView, Seq<char>)>,
    forest: PrivateForestView,
)
    requires
        0 <= from <= to <= nodes.path.len(),
        linked(nodes, 0, forest),
    ensures
        directory_at(nodes, from).walk_on(
            walked,
            step_names(nodes.path).subrange(from, to),
            forest,
        ) matches Ok(PathNodesResultView::Complete(found)) ==> found.tail == directory_at(
            nodes,
            to,
        ),
    decreases to - from,
{
    let names = step_names(nodes.path).subrange(from, to);
    if from < to {
        assert(link_at(nodes, from, forest));
        assert(names[0] == nodes.path[from].1);
        assert(names.drop_first() =~= step_names(nodes.path).subrange(from + 1, to));
        lemma_walk_to_step(
            nodes,
            from + 1,
            to,
            walked.push((directory_at(nodes, from), names[0])),
            forest,
        );
    }
}

/// A directory on a path that was fixed up is found there as it was stored.
proof fn lemma_step_after(
    directory: PrivateDirectoryView,
    nodes: PathNodesView,
    child: PrivateDirectoryView,
    index: int,
    before: PrivateDirectoryView,
    forest: PrivateForestView,
    after: PrivateForestView,
)
    requires
        0 <= index <= nodes.path.len(),
        directory_at(nodes, 0) == directory,
        linked(nodes, 0, forest),
        all_found(nodes.path, child, after),
        directory.node_at(step_names(nodes.path).take(index), forest) == Ok::<_, FsErrorView>(
            Some(PrivateNodeView::Dir(before)),
        ),
    ensures
        before == directory_at(nodes, index),
        updated(nodes.path, child, 0).node_at(step_names(nodes.path).take(index), after) == Ok::<
            _,
            FsErrorView,
        >(Some(PrivateNodeView::Dir(updated(nodes.path, child, index)))),
{
    let none: Seq<(PrivateDirectoryView, Seq<char>)> = Seq::empty();
    let names = step_names(nodes.path).take(index);
    assert(names =~= step_names(nodes.path).subrange(0, index));
    lemma_walk_is_node(directory, names, forest);
    lemma_walk_to_step(nodes, 0, index, none, forest);
    lemma_walk_updated(nodes.path, child, 0, index, none, after);
    lemma_walk_is_node(updated(nodes.path, child, 0), names, after);
}

/// When a path is fixed up, each directory on it changes in the entry of the next name alone,
/// which leads to the next directory as it then is.
pub proof fn law_fixing_up_changes_one_entry_of_each_directory(
    nodes: PathNodesView,
    forest: PrivateForestView,
    index: int,
)
    requires
        no_clash(nodes.fixed_up(forest).1.written_since(forest)),
        0 <= index < nodes.path.len(),
    ensures
        ({
            let (root, after) = nodes.fixed_up(forest);
            let name = nodes.path[index].1;
            &&& root.node_at(step_names(nodes.path).take(index), after) matches Ok(
                Some(PrivateNodeView::Dir(changed)),
            )
            &&& root.node_at(step_names(nodes.path).take(index + 1), after) matches Ok(
                Some(PrivateNodeView::Dir(next)),
            )
            &&& changed_at(nodes.path[index].0, changed, name)
            &&& changed.content.entries.contains_key(name)
            &&& changed.content.entries[name] == next.header.private_ref()
        }),
{
    let child = nodes.tail.advanced();
    let writes = path_writes(nodes.path, child);
    let (root, after) = nodes.fixed_up(forest);
    lemma_stored(nodes.path, child, forest);
    lemma_set_all(forest, writes);
    assert(after.written_since(forest) =~= writes);
    assert(writes.skip(0) =~= writes);
    lemma_all_found(nodes.path, child, forest, writes);
    let none: Seq<(PrivateDirectoryView, Seq<char>)> = Seq::empty();
    let names = step_names(nodes.path);
    assert(names.take(index) =~= names.subrange(0, index));
    assert(names.take(index + 1) =~= names.subrange(0, index + 1));
    lemma_walk_updated(nodes.path, child, 0, index, none, after);
    lemma_walk_updated(nodes.path, child, 0, index + 1, none, after);
    lemma_walk_is_node(root, names.take(index), after);
    lemma_walk_is_node(root, names.take(index + 1), after);
    lemma_entry_changed(
        nodes.path[index].0,
        nodes.path[index].1,
        updated(nodes.path, child, index + 1).header.private_ref(),
    );
}

/// A directory with another entry differs in that entry alone.
proof fn lemma_entry_changed(
    before: PrivateDirectoryView,
    name: Seq<char>,
    private_ref: PrivateRefView,
)
    ensures
        changed_at(before, before.advanced().with_entry(name, private_ref), name),
        changed_at(before, before.with_entry(name, private_ref).advanced(), name),
        changed_at(before, before.without_entry(name).advanced(), name),
{
    let entries = before.content.entries;
    assert(entries.insert(name, private_ref).remove(name) =~= entries.remove(name));
    assert(entries.remove(name).remove(name) =~= entries.remove(name));
}

/// A write changes each directory on the path to the file in the entry of the next name alone.
#[verifier::rlimit(40)]
pub proof fn law_write_changes_one_entry_of_each_directory(
    directory: PrivateDirectoryView,
    segments: Seq<Seq<char>>,
    time: i64,
    content: Seq<u8>,
    forest: PrivateForestView,
    seeds: Seq<SeedView>,
    file_seed: SeedView,
    index: int,
    before: PrivateDirectoryView,
)
    requires
        directory.after_write(segments, time, content, forest, seeds, file_seed) is Ok,
        no_clash(
            directory.after_write(segments, time, content, forest, seeds, file_seed)->Ok_0.1
                .written_since(forest),
        ),
        0 <= index < segments.len(),
        directory.node_at(segments.take(index), forest) == Ok::<_, FsErrorView>(
            Some(PrivateNodeView::Dir(before)),
        ),
    ensures
        ({
            let (root, after) = directory.after_write(
                segments,
                time,
                content,
                forest,
                seeds,
                file_seed,
            )->Ok_0;
            root.node_at(segments.take(index), after) matches Ok(
                Some(PrivateNodeView::Dir(changed)),
            ) && changed_at(before, changed, segments[index])
        }),
{
    let parents = segments.drop_last();
    let name = segments.last();
    let nodes = directory.completed(parents, time, forest, seeds)->Ok_0;
    let file = nodes.tail.file_to_put(name, time, content, forest, file_seed)->Ok_0;
    let private_ref = file.header.private_ref();
    let first = (private_ref, PrivateNodeView::File(file));
    let child = nodes.tail.with_entry(name, private_ref).advanced();
    let writes = seq![first] + path_writes(nodes.path, child);
    lemma_completed_names(directory, parents, time, forest, seeds);
    lemma_completed_linked(directory, parents, time, forest, seeds);
    lemma_stored(nodes.path, child, forest.set(first.0, first.1));
    lemma_set_first(forest, writes);
    assert(writes.drop_first() =~= path_writes(nodes.path, child));
    lemma_set_all(forest, writes);
    let after = set_all(forest, writes);
    assert(after.written_since(forest) =~= writes);
    assert(writes.skip(1) =~= path_writes(nodes.path, child));
    lemma_all_found(nodes.path, child, forest, writes);
    assert(segments.take(index) =~= step_names(nodes.path).take(index));
    lemma_step_after(directory, nodes, child, index, before, forest, after);
    if index < parents.len() {
        assert(nodes.path[index].1 == step_names(nodes.path)[index]);
        lemma_entry_changed(
            before,
            segments[index],
            updated(nodes.path, child, index + 1).header.private_ref(),
        );
    } else {
        lemma_entry_changed(before, name, private_ref);
    }
}

/// Making directories changes each directory on the path to the last one in the entry of the
/// next name alone.
pub proof fn law_mkdir_changes_one_entry_of_each_directory(
    directory: PrivateDirectoryView,
    segments: Seq<Seq<char>>,
    time: i64,
    forest: PrivateForestView,
    seeds: Seq<SeedView>,
    index: int,
    before: PrivateDirectoryView,
)
    requires
        directory.after_mkdir(segments, time, forest, seeds) is Ok,
        no_clash(
            directory.after_mkdir(segments, time, forest, seeds)->Ok_0.1.written_since(forest),
        ),
        0 <= index < segments.len(),
        directory.node_at(segments.take(index), forest) == Ok::<_, FsErrorView>(
            Some(PrivateNodeView::Dir(before)),
        ),
    ensures
        ({
            let (root, after) = directory.after_mkdir(segments, time, forest, seeds)->Ok_0;
            root.node_at(segments.take(index), after) matches Ok(
                Some(PrivateNodeView::Dir(changed)),
            ) && changed_at(before, changed, segments[index])
        }),
{
    let nodes = directory.completed(segments, time, forest, seeds)->Ok_0;
    let child = nodes.tail.advanced();
    let writes = path_writes(nodes.path, child);
    lemma_completed_names(directory, segments, time, forest, seeds);
    lemma_completed_linked(directory, segments, time, forest, seeds);
    lemma_stored(nodes.path, child, forest);
    lemma_set_all(forest, writes);
    let after = set_all(forest, writes);
    assert(after.written_since(forest) =~= writes);
    assert(writes.skip(0) =~= writes);
    lemma_all_found(nodes.path, child, forest, writes);
    lemma_step_after(directory, nodes, child, index, before, forest, after);
    assert(nodes.path[index].1 == step_names(nodes.path)[index]);
    lemma_entry_changed(
        before,
        segments[index],
        updated(nodes.path, child, index + 1).header.private_ref(),
    );
}

/// A removal changes each directory on the path to the removed node in the entry of the next
/// name alone.
pub proof fn law_rm_changes_one_entry_of_each_directory(
    directory: PrivateDirectoryView,
    segments: Seq<Seq<char>>,
    forest: PrivateForestView,
    index: int,
    before: PrivateDirectoryView,
)
    requires
        directory.after_rm(segments, forest) is Ok,
        no_clash(directory.after_rm(segments, forest)->Ok_0.1.written_since(forest)),
        0 <= index < segments.len(),
        directory.node_at(segments.take(index), forest) == Ok::<_, FsErrorView>(
            Some(PrivateNodeView::Dir(before)),
        ),
    ensures
        ({
            let (root, after, _) = directory.after_rm(segments, forest)->Ok_0;
            root.node_at(segments.take(index), after) matches Ok(
                Some(PrivateNodeView::Dir(changed)),
            ) && changed_at(before, changed, segments[index])
        }),
{
    let parents = segments.drop_last();
    let name = segments.last();
    let nodes = directory.walk(parents, forest)->Ok_0->Complete_0;
    let child = nodes.tail.without_entry(name).advanced();
    let writes = path_writes(nodes.path, child);
    let none: Seq<(PrivateDirectoryView, Seq<char>)> = Seq::empty();
    lemma_walk_names(directory, none, parents, forest);
    assert(step_names(none) + parents =~= parents);
    lemma_walk_linked(directory, none, parents, forest);
    lemma_stored(nodes.path, child, forest);
    lemma_set_all(forest, writes);
    let after = set_all(forest, writes);
    assert(after.written_since(forest) =~= writes);
    assert(writes.skip(0) =~= writes);
    lemma_all_found(nodes.path, child, forest, writes);
    assert(segments.take(index) =~= step_names(nodes.path).take(index));
    lemma_step_after(directory, nodes, child, index, before, forest, after);
    if index < parents.len() {
        assert(nodes.path[index].1 == step_names(nodes.path)[index]);
        lemma_entry_changed(
            before,
            segments[index],
            updated(nodes.path, child, index + 1).header.private_ref(),
        );
    } else {
        lemma_entry_changed(before, name, before.header.private_ref());
    }
}

/// Whether a name in a directory leads to a node: the place that its reference holds is known,
/// and the node is there.
pub open spec fn leads_to(
    directory: PrivateDirectoryView,
    name: Seq<char>,
    node: PrivateNodeView,
    forest: PrivateForestView,
) -> bool {
    &&& directory.content.entries.contains_key(name)
    &&& ({
        let private_ref = directory.content.entries[name];
        let place = (private_ref.saturated_name_hash, private_ref.content_key);
        forest.nodes.contains_key(place) && forest.nodes[place] == Some(node)
    })
}

/// Whether a name in a directory leads to no node: it is not there, or there is nothing where its
/// reference leads to.
pub open spec fn leads_nowhere(
    directory: PrivateDirectoryView,
    name: Seq<char>,
    forest: PrivateForestView,
) -> bool {
    directory.content.entries.contains_key(name) ==> {
        let private_ref = directory.content.entries[name];
        let place = (private_ref.saturated_name_hash, private_ref.content_key);
        if forest.nodes.contains_key(place) {
            forest.nodes[place] is None
        } else {
            !forest.backed
        }
    }
}

/// A name is looked up in the entries of its directory and at the place that its reference holds.
/// Where that place is not known and there is a store, it is what has to be fetched.
pub proof fn law_lookup_follows_the_reference(
    directory: PrivateDirectoryView,
    name: Seq<char>,
    forest: PrivateForestView,
)
    ensures
        forall|node: PrivateNodeView|
            directory.lookup(name, forest) == Ok::<_, FsErrorView>(Some(node)) <==> #[trigger]
            leads_to(directory, name, node, forest),
        directory.lookup(name, forest) == Ok::<_, FsErrorView>(None::<PrivateNodeView>)
            <==> leads_nowhere(directory, name, forest),
        directory.lookup(name, forest) matches Err(error) ==> {
            let private_ref = directory.content.entries[name];
            let place = (private_ref.saturated_name_hash, private_ref.content_key);
            &&& directory.content.entries.contains_key(name)
            &&& !forest.nodes.contains_key(place)
            &&& forest.backed
            &&& error == FsErrorView::NotLoaded(place)
        },
{
}

/// A walk fails only where something has to be fetched.
proof fn lemma_walk_error(
    directory: PrivateDirectoryView,
    path: Seq<(PrivateDirectoryView, Seq<char>)>,
    segments: Seq<Seq<char>>,
    forest: PrivateForestView,
)
    ensures
        directory.walk_on(path, segments, forest) matches Err(error) ==> error is NotLoaded,
    decreases segments.len(),
{
    if segments.len() > 0 {
        match directory.lookup(segments[0], forest) {
            Ok(Some(PrivateNodeView::Dir(child))) => {
                lemma_walk_error(
                    child,
                    path.push((directory, segments[0])),
                    segments.drop_first(),
                    forest,
                );
            },
            _ => {},
        }
    }
}

/// What is at the end of a path says how a walk there ends.
proof fn lemma_walk_and_node(
    directory: PrivateDirectoryView,
    segments: Seq<Seq<char>>,
    forest: PrivateForestView,
)
    ensures
        match directory.walk(segments, forest) {
            Ok(PathNodesResultView::Complete(nodes)) => directory.node_at(segments, forest) == Ok::<
                _,
                FsErrorView,
            >(Some(PrivateNodeView::Dir(nodes.tail))),
            Ok(PathNodesResultView::NotADirectory(_, _)) => match directory.node_at(
                segments,
                forest,
            ) {
                Ok(Some(PrivateNodeView::File(_))) => true,
                Err(error) => error == FsErrorView::Plain(FsError::NotFound),
                _ => false,
            },
            Ok(PathNodesResultView::MissingLink(_, _)) => match directory.node_at(
                segments,
                forest,
            ) {
                Ok(None) => true,
                Err(error) => error == FsErrorView::Plain(FsError::NotFound),
                _ => false,
            },
            Err(error) => error is NotLoaded && directory.node_at(segments, forest) == Err::<
                Option<PrivateNodeView>,
                _,
            >(error),
        },
{
    lemma_walk_error(directory, Seq::empty(), segments, forest);
    if segments.len() > 0 {
        let last = seq![segments.last()];
        lemma_walk_in_two(directory, Seq::empty(), segments.drop_last(), last, forest);
        assert(segments.drop_last() + last =~= segments);
        match directory.walk(segments.drop_last(), forest) {
            Ok(PathNodesResultView::Complete(nodes)) => {
                assert(last[0] == segments.last());
                match nodes.tail.lookup(last[0], forest) {
                    Ok(Some(PrivateNodeView::Dir(child))) => {
                        assert(last.drop_first().len() == 0);
                        assert(nodes.tail.walk_on(nodes.path, last, forest) == child.walk_on(
                            nodes.path.push((nodes.tail, last[0])),
                            last.drop_first(),
                            forest,
                        ));
                    },
                    _ => {},
                }
            },
            _ => {},
        }
    }
}

/// At the end of the empty path is the directory itself.
pub proof fn law_empty_path_leads_to_the_directory(
    directory: PrivateDirectoryView,
    forest: PrivateForestView,
)
    ensures
        directory.node_at(Seq::empty(), forest) == Ok::<_, FsErrorView>(
            Some(PrivateNodeView::Dir(directory)),
        ),
{
}

/// One more name on a path leads on from the directory at its end, and from nothing else. A path
/// that goes on from a file, or from where there is nothing, is not found.
pub proof fn law_path_goes_on_name_by_name(
    directory: PrivateDirectoryView,
    path: Seq<Seq<char>>,
    name: Seq<char>,
    forest: PrivateForestView,
)
    ensures
        match directory.node_at(path, forest) {
            Ok(Some(PrivateNodeView::Dir(parent))) => {
                &&& forall|node: PrivateNodeView|
                    directory.node_at(path.push(name), forest) == Ok::<_, FsErrorView>(Some(node))
                        <==> #[trigger] leads_to(parent, name, node, forest)
                &&& directory.node_at(path.push(name), forest) == Ok::<_, FsErrorView>(
                    None::<PrivateNodeView>,
                ) <==> leads_nowhere(parent, name, forest)
                &&& directory.node_at(path.push(name), forest) matches Err(error) ==> error
                    == FsErrorView::NotLoaded(
                    (
                        parent.content.entries[name].saturated_name_hash,
                        parent.content.entries[name].content_key,
                    ),
                )
            },
            Ok(_) => directory.node_at(path.push(name), forest) == Err::<
                Option<PrivateNodeView>,
                _,
            >(FsErrorView::Plain(FsError::NotFound)),
            Err(error) => directory.node_at(path.push(name), forest) == Err::<
                Option<PrivateNodeView>,
                _,
            >(error),
        },
{
    lemma_walk_and_node(directory, path, forest);
    assert(path.push(name).drop_last() =~= path);
    assert(path.push(name).last() == name);
    match directory.node_at(path, forest) {
        Ok(Some(PrivateNodeView::Dir(parent))) => {
            law_lookup_follows_the_reference(parent, name, forest);
        },
        _ => {},
    }
}

/// A file is read exactly where a file is, and what is read is its content. A read says why there
/// is nothing to read: the path is empty, a directory is there, nothing is, or what to fetch.
pub proof fn law_read_gives_the_content_of_the_file(
    directory: PrivateDirectoryView,
    segments: Seq<Seq<char>>,
    forest: PrivateForestView,
)
    ensures
        match directory.content_at(segments, forest) {
            Ok(content) => segments.len() > 0 && (directory.node_at(segments, forest) matches Ok(
                Some(PrivateNodeView::File(file)),
            ) && file.content.content == content),
            Err(error) => if segments.len() == 0 {
                error == FsErrorView::Plain(FsError::InvalidPath)
            } else {
                match directory.node_at(segments, forest) {
                    Ok(Some(PrivateNodeView::File(_))) => false,
                    Ok(Some(PrivateNodeView::Dir(_))) => error == FsErrorView::Plain(
                        FsError::NotAFile,
                    ),
                    Ok(None) => error == FsErrorView::Plain(FsError::NotFound),
                    Err(expected) => error == expected,
                }
            },
        },
{
}

/// There is no node at a path because it is not found or because something has to be fetched.
proof fn lemma_node_error(
    directory: PrivateDirectoryView,
    segments: Seq<Seq<char>>,
    forest: PrivateForestView,
)
    ensures
        directory.node_at(segments, forest) matches Err(error) ==> error is NotLoaded || error
            == FsErrorView::Plain(FsError::NotFound),
{
    lemma_walk_and_node(directory, segments, forest);
    if segments.len() > 0 {
        lemma_walk_error(directory, Seq::empty(), segments.drop_last(), forest);
    }
}

/// A removal gives back the node that was at the path before it, and succeeds exactly where there
/// was one. Otherwise it says that the path is empty, that there is no node, or what to fetch.
pub proof fn law_removal_gives_back_the_node_at_the_path(
    directory: PrivateDirectoryView,
    segments: Seq<Seq<char>>,
    forest: PrivateForestView,
)
    ensures
        match directory.after_rm(segments, forest) {
            Ok((_, _, removed)) => segments.len() > 0 && directory.node_at(segments, forest)
                == Ok::<_, FsErrorView>(Some(removed)),
            Err(error) => if segments.len() == 0 {
                error == FsErrorView::Plain(FsError::InvalidPath)
            } else {
                match directory.node_at(segments, forest) {
                    Ok(Some(_)) => false,
                    Ok(None) => error == FsErrorView::Plain(FsError::NotFound),
                    Err(expected) => error == expected,
                }
            },
        },
{
}

/// Whether a file is at the end of a path or of the start of one.
pub open spec fn meets_file(
    directory: PrivateDirectoryView,
    segments: Seq<Seq<char>>,
    forest: PrivateForestView,
) -> bool {
    exists|count: int|
        0 <= count <= segments.len() && is_file_at(
            directory,
            #[trigger] segments.take(count),
            forest,
        )
}

/// Whether a file is at the end of a path.
pub open spec fn is_file_at(
    directory: PrivateDirectoryView,
    segments: Seq<Seq<char>>,
    forest: PrivateForestView,
) -> bool {
    directory.node_at(segments, forest) matches Ok(Some(PrivateNodeView::File(_)))
}

/// A walk stops where one along the start of the path stops.
proof fn lemma_walk_stops_at_prefix(
    directory: PrivateDirectoryView,
    segments: Seq<Seq<char>>,
    count: int,
    forest: PrivateForestView,
)
    requires
        0 <= count <= segments.len(),
        !(directory.walk(segments.take(count), forest) matches Ok(
            PathNodesResultView::Complete(_),
        )),
    ensures
        directory.walk(segments, forest) == directory.walk(segments.take(count), forest),
{
    let start = segments.take(count);
    let rest = segments.skip(count);
    lemma_walk_in_two(directory, Seq::empty(), start, rest, forest);
    assert(start + rest =~= segments);
}

/// A walk is stopped by a file exactly if there is one on the way or at the end.
proof fn lemma_walk_meets_file(
    directory: PrivateDirectoryView,
    segments: Seq<Seq<char>>,
    forest: PrivateForestView,
)
    ensures
        meets_file(directory, segments, forest) <==> directory.walk(segments, forest) matches Ok(
            PathNodesResultView::NotADirectory(_, _),
        ),
    decreases segments.len(),
{
    assert(segments.take(segments.len() as int) =~= segments);
    if meets_file(directory, segments, forest) {
        let count = choose|count: int|
            0 <= count <= segments.len() && is_file_at(
                directory,
                #[trigger] segments.take(count),
                forest,
            );
        lemma_walk_and_node(directory, segments.take(count), forest);
        lemma_walk_stops_at_prefix(directory, segments, count, forest);
    }
    lemma_walk_and_node(directory, segments, forest);
    if directory.walk(segments, forest) matches Ok(PathNodesResultView::NotADirectory(_, _))
        && !is_file_at(directory, segments, forest) {
        let parents = segments.drop_last();
        lemma_walk_and_node(directory, parents, forest);
        lemma_walk_meets_file(directory, parents, forest);
        assert(parents =~= segments.take(segments.len() - 1));
        match directory.walk(parents, forest) {
            Ok(PathNodesResultView::NotADirectory(_, _)) => {
                let count = choose|count: int|
                    0 <= count <= parents.len() && is_file_at(
                        directory,
                        #[trigger] parents.take(count),
                        forest,
                    );
                assert(parents.take(count) =~= segments.take(count));
            },
            Ok(PathNodesResultView::Complete(_)) => {},
            _ => {
                lemma_walk_stops_at_prefix(directory, segments, segments.len() - 1, forest);
            },
        }
    }
}

/// Directories can be made along every path that meets no file, whatever is there already. Only
/// what has to be fetched first stands in the way.
pub proof fn law_mkdir_succeeds_where_no_file_is_met(
    directory: PrivateDirectoryView,
    segments: Seq<Seq<char>>,
    time: i64,
    forest: PrivateForestView,
    seeds: Seq<SeedView>,
)
    ensures
        match directory.after_mkdir(segments, time, forest, seeds) {
            Ok(_) => !meets_file(directory, segments, forest) && !(directory.node_at(
                segments,
                forest,
            ) matches Err(FsErrorView::NotLoaded(_))),
            Err(error) => if meets_file(directory, segments, forest) {
                error == FsErrorView::Plain(FsError::InvalidPath)
            } else {
                error is NotLoaded && directory.node_at(segments, forest) == Err::<
                    Option<PrivateNodeView>,
                    _,
                >(error)
            },
        },
{
    lemma_walk_meets_file(directory, segments, forest);
    lemma_walk_and_node(directory, segments, forest);
}

/// A file can be written at every path that is not empty, whose way meets no file, and at whose
/// end no directory is: a file that is there is replaced, whatever it holds. Otherwise a write
/// says what stands in the way, or what has to be fetched first.
pub proof fn law_write_succeeds_unless_something_is_in_the_way(
    directory: PrivateDirectoryView,
    segments: Seq<Seq<char>>,
    time: i64,
    content: Seq<u8>,
    forest: PrivateForestView,
    seeds: Seq<SeedView>,
    file_seed: SeedView,
)
    ensures
        ({
            let outcome = directory.after_write(segments, time, content, forest, seeds, file_seed);
            if segments.len() == 0 || meets_file(directory, segments.drop_last(), forest) {
                outcome == Err::<(PrivateDirectoryView, PrivateForestView), _>(
                    FsErrorView::Plain(FsError::InvalidPath),
                )
            } else {
                match directory.node_at(segments, forest) {
                    Ok(Some(PrivateNodeView::Dir(_))) => outcome == Err::<
                        (PrivateDirectoryView, PrivateForestView),
                        _,
                    >(FsErrorView::Plain(FsError::DirectoryAlreadyExists)),
                    Err(FsErrorView::NotLoaded(place)) => outcome == Err::<
                        (PrivateDirectoryView, PrivateForestView),
                        _,
                    >(FsErrorView::NotLoaded(place)),
                    _ => outcome is Ok,
                }
            }
        }),
{
    if segments.len() > 0 {
        let parents = segments.drop_last();
        lemma_walk_meets_file(directory, parents, forest);
        lemma_walk_and_node(directory, parents, forest);
        lemma_node_error(directory, segments, forest);
    }
}

/// A listing shows each name in the directory once, in ascending order, and beside it the
/// metadata of the very node that the name leads to, be it a file or a directory.
pub proof fn law_listing_shows_each_child_with_its_own_metadata(
    directory: PrivateDirectoryView,
    path: Seq<Seq<char>>,
    forest: PrivateForestView,
    names: Seq<Seq<char>>,
    list: Seq<(Seq<char>, Metadata)>,
)
    requires
        directory.names_at(path, forest, names),
        directory.listed_at(path, forest, names) == Ok::<_, FsErrorView>(list),
    ensures
        directory.node_at(path, forest) matches Ok(Some(PrivateNodeView::Dir(parent)))
            && forall|name: Seq<char>| #[trigger]
            parent.content.entries.contains_key(name) <==> exists|i: int|
                0 <= i < list.len() && (#[trigger] list[i]).0 == name,
        forall|i: int, j: int|
            0 <= i < j < list.len() ==> crate::private::order::name_before(
                (#[trigger] list[i]).0,
                (#[trigger] list[j]).0,
            ),
        forall|i: int|
            0 <= i < list.len() ==> match directory.node_at(
                path.push((#[trigger] list[i]).0),
                forest,
            ) {
                Ok(Some(PrivateNodeView::File(file))) => file.content.metadata == list[i].1,
                Ok(Some(PrivateNodeView::Dir(dir))) => dir.content.metadata == list[i].1,
                _ => false,
            },
{
    lemma_walk_and_node(directory, path, forest);
    let nodes = directory.walk(path, forest)->Ok_0->Complete_0;
    let parent = nodes.tail;
    lemma_listed(parent, names, forest);
    assert forall|i: int|
        0 <= i < list.len() implies list[i].0 == names[i] && match directory.node_at(
        path.push((#[trigger] list[i]).0),
        forest,
    ) {
        Ok(Some(PrivateNodeView::File(file))) => file.content.metadata == list[i].1,
        Ok(Some(PrivateNodeView::Dir(dir))) => dir.content.metadata == list[i].1,
        _ => false,
    } by {
        assert(lists(parent, forest, names[i], list[i]));
        assert(path.push(names[i]).drop_last() =~= path);
        assert(path.push(names[i]).last() == names[i]);
    }
    assert forall|name: Seq<char>| #[trigger]
        parent.content.entries.contains_key(name) implies exists|i: int|
        0 <= i < list.len() && (#[trigger] list[i]).0 == name by {
        assert(names.contains(name));
        let i = choose|i: int| 0 <= i < names.len() && names[i] == name;
        assert(list[i].0 == name);
    }
    assert forall|name: Seq<char>|
        (exists|i: int| 0 <= i < list.len() && (#[trigger] list[i]).0 == name) implies #[trigger]
    parent.content.entries.contains_key(name) by {
        let i = choose|i: int| 0 <= i < list.len() && (#[trigger] list[i]).0 == name;
        assert(names[i] == name);
        assert(names.contains(name));
    }
}

/// A directory is listed exactly if it is there and each of its names leads to a node. Otherwise
/// there is no directory, or the first name that does not lead to a node says why.
pub proof fn law_listing_succeeds_where_every_name_leads_to_a_node(
    directory: PrivateDirectoryView,
    path: Seq<Seq<char>>,
    forest: PrivateForestView,
    names: Seq<Seq<char>>,
)
    requires
        directory.names_at(path, forest, names),
    ensures
        match directory.node_at(path, forest) {
            Ok(Some(PrivateNodeView::Dir(parent))) => match directory.listed_at(
                path,
                forest,
                names,
            ) {
                Ok(_) => forall|name: Seq<char>| #[trigger]
                    parent.content.entries.contains_key(name) ==> directory.node_at(
                        path.push(name),
                        forest,
                    ) matches Ok(Some(_)),
                Err(error) => exists|name: Seq<char>| #[trigger]
                    parent.content.entries.contains_key(name) && match directory.node_at(
                        path.push(name),
                        forest,
                    ) {
                        Ok(Some(_)) => false,
                        Ok(None) => error == FsErrorView::Plain(FsError::NotFound),
                        Err(expected) => error == expected,
                    } && forall|earlier: Seq<char>| #[trigger]
                    parent.content.entries.contains_key(earlier)
                        && crate::private::order::name_before(earlier, name) ==> directory.node_at(
                        path.push(earlier),
                        forest,
                    ) matches Ok(Some(_)),
            },
            Err(FsErrorView::NotLoaded(place)) => directory.listed_at(path, forest, names) == Err::<
                Seq<(Seq<char>, Metadata)>,
                _,
            >(FsErrorView::NotLoaded(place)),
            _ => directory.listed_at(path, forest, names) == Err::<Seq<(Seq<char>, Metadata)>, _>(
                FsErrorView::Plain(FsError::NotFound),
            ),
        },
{
    lemma_walk_and_node(directory, path, forest);
    match directory.walk(path, forest) {
        Ok(PathNodesResultView::Complete(nodes)) => {
            let parent = nodes.tail;
            assert forall|name: Seq<char>| directory.node_at(
                #[trigger] path.push(name),
                forest,
            ) == parent.lookup(name, forest) by {
                assert(path.push(name).drop_last() =~= path);
                assert(path.push(name).last() == name);
            }
            lemma_listed(parent, names, forest);
            match directory.listed_at(path, forest, names) {
                Ok(list) => {
                    assert forall|name: Seq<char>| #[trigger]
                        parent.content.entries.contains_key(name) implies directory.node_at(
                        path.push(name),
                        forest,
                    ) matches Ok(Some(_)) by {
                        assert(names.contains(name));
                        let i = choose|i: int| 0 <= i < names.len() && names[i] == name;
                        assert(lists(parent, forest, names[i], list[i]));
                    }
                },
                Err(error) => {
                    let at = lemma_listing_fails_at(parent, names, forest);
                    let name = names[at];
                    assert(names.contains(name));
                    assert(parent.content.entries.contains_key(name));
                    assert forall|earlier: Seq<char>| #[trigger]
                        parent.content.entries.contains_key(earlier)
                            && crate::private::order::name_before(
                            earlier,
                            name,
                        ) implies directory.node_at(path.push(earlier), forest) matches Ok(
                        Some(_),
                    ) by {
                        assert(names.contains(earlier));
                        let i = choose|i: int| 0 <= i < names.len() && names[i] == earlier;
                        crate::private::order::lemma_irreflexive(name);
                        if i > at {
                            crate::private::order::lemma_transitive(name, earlier, name);
                        }
                        assert(parent.lookup(names[i], forest) matches Ok(Some(_)));
                    }
                },
            }
        },
        _ => {},
    }
}

/// A listing fails at a name that leads to no node.
proof fn lemma_listing_fails_at(
    directory: PrivateDirectoryView,
    names: Seq<Seq<char>>,
    forest: PrivateForestView,
) -> (at: int)
    requires
        directory.listed(names, forest) is Err,
    ensures
        0 <= at < names.len(),
        forall|i: int|
            0 <= i < at ==> directory.lookup(#[trigger] names[i], forest) matches Ok(Some(_)),
        match directory.lookup(names[at], forest) {
            Ok(Some(_)) => false,
            Ok(None) => directory.listed(names, forest)->Err_0 == FsErrorView::Plain(
                FsError::NotFound,
            ),
            Err(error) => directory.listed(names, forest)->Err_0 == error,
        },
    decreases names.len(),
{
    if directory.listed(names.drop_last(), forest) is Err {
        let at = lemma_listing_fails_at(directory, names.drop_last(), forest);
        assert(names.drop_last()[at] == names[at]);
        assert forall|i: int| 0 <= i < at implies directory.lookup(
            #[trigger] names[i],
            forest,
        ) matches Ok(Some(_)) by {
            assert(names.drop_last()[i] == names[i]);
        }
        at
    } else {
        lemma_listed(directory, names.drop_last(), forest);
        let list = directory.listed(names.drop_last(), forest)->Ok_0;
        assert forall|i: int| 0 <= i < names.len() - 1 implies directory.lookup(
            #[trigger] names[i],
            forest,
        ) matches Ok(Some(_)) by {
            assert(lists(directory, forest, names.drop_last()[i], list[i]));
            assert(names.drop_last()[i] == names[i]);
        }
        names.len() - 1
    }
}

/// What is written at a path is then a file there, with what was written as its content and with
/// the time of the write. A file that was there keeps its header. Another one is new: its inumber
/// and its ratchet come from its seed, and it is named under the directory that it is in.
pub proof fn law_written_file_is_at_its_path(
    directory: PrivateDirectoryView,
    segments: Seq<Seq<char>>,
    time: i64,
    content: Seq<u8>,
    forest: PrivateForestView,
    seeds: Seq<SeedView>,
    file_seed: SeedView,
)
    requires
        directory.after_write(segments, time, content, forest, seeds, file_seed) is Ok,
        no_clash(
            directory.after_write(segments, time, content, forest, seeds, file_seed)->Ok_0.1
                .written_since(forest),
        ),
    ensures
        ({
            let (root, after) = directory.after_write(
                segments,
                time,
                content,
                forest,
                seeds,
                file_seed,
            )->Ok_0;
            &&& segments.len() > 0
            &&& root.node_at(segments, after) matches Ok(Some(PrivateNodeView::File(file)))
            &&& root.node_at(segments.drop_last(), after) matches Ok(
                Some(PrivateNodeView::Dir(parent)),
            )
            &&& leads_to(parent, segments.last(), PrivateNodeView::File(file), after)
            &&& parent.content.entries[segments.last()] == file.header.private_ref()
            &&& file.content.content == content
            &&& file.content.metadata.unix_fs.created == time
            &&& file.content.metadata.unix_fs.modified == time
            &&& file.content.metadata.unix_fs.kind == UnixFsNodeKind::File
            &&& match directory.node_at(segments, forest) {
                Ok(Some(PrivateNodeView::File(before))) => {
                    &&& file.header.inumber == before.header.inumber
                    &&& file.header.ratchet == before.header.ratchet
                    &&& file.header.bare_name == before.header.bare_name
                },
                _ => {
                    &&& file.header.inumber == file_seed.0
                    &&& file.header.ratchet == crate::ratchet::ratchet_seeded(file_seed.1, 0, 0)
                    &&& file.header.bare_name == parent.header.bare_name.push(file_seed.0)
                },
            }
        }),
{
    let parents = segments.drop_last();
    let name = segments.last();
    let nodes = directory.completed(parents, time, forest, seeds)->Ok_0;
    let file = nodes.tail.file_to_put(name, time, content, forest, file_seed)->Ok_0;
    let (root, after) = nodes.with_file(name, file, forest);
    lemma_completed_names(directory, parents, time, forest, seeds);
    lemma_after_put(nodes, name, file, forest);
    lemma_walk_and_node(root, parents, after);
    let parent = root.walk(parents, after)->Ok_0->Complete_0.tail;
    law_lookup_follows_the_reference(parent, name, after);
    assert(leads_to(parent, name, PrivateNodeView::File(file), after));
}

/// Whether the directories on a path end after `existing` names: a directory is there, and none
/// under the next name.
pub open spec fn ends_after(
    directory: PrivateDirectoryView,
    segments: Seq<Seq<char>>,
    forest: PrivateForestView,
    existing: int,
) -> bool {
    &&& 0 <= existing < segments.len()
    &&& directory.node_at(segments.take(existing), forest) matches Ok(
        Some(PrivateNodeView::Dir(_)),
    )
    &&& !(directory.node_at(segments.take(existing + 1), forest) matches Ok(
        Some(PrivateNodeView::Dir(_)),
    ))
}

/// Where the directories on a path end, a walk finds a name that leads nowhere.
proof fn lemma_missing_from(
    directory: PrivateDirectoryView,
    segments: Seq<Seq<char>>,
    time: i64,
    forest: PrivateForestView,
    seeds: Seq<SeedView>,
    existing: int,
)
    requires
        directory.completed(segments, time, forest, seeds) is Ok,
        ends_after(directory, segments, forest, existing),
    ensures
        directory.walk(segments, forest) matches Ok(PathNodesResultView::MissingLink(so_far, _))
            && so_far.path.len() == existing,
{
    let none: Seq<(PrivateDirectoryView, Seq<char>)> = Seq::empty();
    let start = segments.take(existing);
    let more = segments.take(existing + 1);
    let last = seq![segments[existing]];
    lemma_walk_and_node(directory, start, forest);
    lemma_walk_and_node(directory, more, forest);
    lemma_walk_stops_at_prefix(directory, segments, existing + 1, forest);
    lemma_walk_names(directory, none, start, forest);
    lemma_walk_names(directory, none, segments, forest);
    lemma_walk_in_two(directory, none, start, last, forest);
    assert(start + last =~= more);
    let nodes = directory.walk(start, forest)->Ok_0->Complete_0;
    assert(step_names(none) + start =~= start);
    assert(nodes.path.len() == step_names(nodes.path).len());
    assert(step_names(nodes.path) == start);
    assert(directory.walk(more, forest) == nodes.tail.walk_on(nodes.path, last, forest));
    match nodes.tail.lookup(last[0], forest) {
        Ok(Some(PrivateNodeView::Dir(child))) => {
            assert(last.drop_first().len() == 0);
            assert(nodes.tail.walk_on(nodes.path, last, forest) == child.walk_on(
                nodes.path.push((nodes.tail, last[0])),
                last.drop_first(),
                forest,
            ));
        },
        _ => {},
    }
}

/// The directories that are made on a path, each from its seed, under the one before it.
proof fn lemma_made_directory(
    directory: PrivateDirectoryView,
    segments: Seq<Seq<char>>,
    time: i64,
    forest: PrivateForestView,
    seeds: Seq<SeedView>,
    existing: int,
    count: int,
)
    requires
        directory.completed(segments, time, forest, seeds) is Ok,
        ends_after(directory, segments, forest, existing),
        seeds.len() == segments.len() - existing,
        existing < count <= segments.len(),
    ensures
        ({
            let nodes = directory.completed(segments, time, forest, seeds)->Ok_0;
            let seed = seeds[count - existing - 1];
            let made = directory_at(nodes, count);
            let parent = directory_at(nodes, count - 1);
            &&& nodes.path.len() == segments.len()
            &&& made.content.metadata == Metadata::created_at(time, UnixFsNodeKind::Dir)
            &&& made.content.entries == Map::<Seq<char>, PrivateRefView>::empty()
            &&& made.header.inumber == seed.0
            &&& made.header.ratchet == crate::ratchet::ratchet_seeded(seed.1, 0, 0)
            &&& made.header.bare_name == parent.header.bare_name.push(seed.0)
        }),
{
    lemma_missing_from(directory, segments, time, forest, seeds, existing);
    let nodes = directory.completed(segments, time, forest, seeds)->Ok_0;
    let so_far = directory.walk(segments, forest)->Ok_0->MissingLink_0;
    let name = directory.walk(segments, forest)->Ok_0->MissingLink_1;
    let parent_name = so_far.tail.header.bare_name;
    let made = PathNodesView::created(segments.skip(existing + 1), time, parent_name, seeds);
    let index = count - existing - 1;
    assert(made.path.len() == segments.len() - existing - 1);
    assert(nodes.path.len() == segments.len());
    if count < segments.len() {
        assert(nodes.path[count] == made.path[index]);
    }
    assert(directory_at(nodes, count) == PathNodesView::created_directory(
        index,
        time,
        parent_name,
        seeds,
    ));
    if index == 0 {
        assert(nodes.path[existing] == (so_far.tail, name));
        assert(parent_name + seeds.take(0).map_values(|seed: SeedView| seed.0) =~= parent_name);
    } else {
        assert(nodes.path[count - 1] == made.path[index - 1]);
        assert(parent_name + seeds.take(index).map_values(|seed: SeedView| seed.0) =~= (parent_name
            + seeds.take(index - 1).map_values(|seed: SeedView| seed.0)).push(
            seeds[index - 1].0,
        ));
    }
}

/// What a directory is stored as keeps all but the ratchet and the entry of the next name.
proof fn lemma_updated_fields(
    nodes: PathNodesView,
    child: PrivateDirectoryView,
    index: int,
)
    requires
        0 <= index <= nodes.path.len(),
        child.header == nodes.tail.header.advanced(),
        child.content.metadata == nodes.tail.content.metadata,
    ensures
        ({
            let before = directory_at(nodes, index);
            let after = updated(nodes.path, child, index);
            &&& after.content.metadata == before.content.metadata
            &&& after.header.inumber == before.header.inumber
            &&& after.header.bare_name == before.header.bare_name
            &&& after.header.ratchet == crate::ratchet::ratchet_next(before.header.ratchet)
            &&& index < nodes.path.len() ==> forall|name: Seq<char>| #[trigger]
                after.content.entries.contains_key(name) <==> name == nodes.path[index].1
                    || before.content.entries.contains_key(name)
        }),
{
}

/// After directories were made along a path, each one that was not there before is: it has the
/// time that was given as its times, and its inumber and its ratchet come from a seed of its own.
/// It is named under the one before it, and leads to the next one alone.
pub proof fn law_made_directories_are_new(
    directory: PrivateDirectoryView,
    segments: Seq<Seq<char>>,
    time: i64,
    forest: PrivateForestView,
    seeds: Seq<SeedView>,
    existing: int,
    count: int,
)
    requires
        directory.after_mkdir(segments, time, forest, seeds) is Ok,
        no_clash(
            directory.after_mkdir(segments, time, forest, seeds)->Ok_0.1.written_since(forest),
        ),
        ends_after(directory, segments, forest, existing),
        seeds.len() == segments.len() - existing,
        existing < count <= segments.len(),
    ensures
        ({
            let (root, after) = directory.after_mkdir(segments, time, forest, seeds)->Ok_0;
            let seed = seeds[count - existing - 1];
            &&& root.node_at(segments.take(count), after) matches Ok(
                Some(PrivateNodeView::Dir(made)),
            )
            &&& root.node_at(segments.take(count - 1), after) matches Ok(
                Some(PrivateNodeView::Dir(parent)),
            )
            &&& made.content.metadata.unix_fs.created == time
            &&& made.content.metadata.unix_fs.modified == time
            &&& made.content.metadata.unix_fs.kind == UnixFsNodeKind::Dir
            &&& made.header.inumber == seed.0
            &&& made.header.bare_name == parent.header.bare_name.push(seed.0)
            &&& made.header.ratchet == crate::ratchet::ratchet_next(
                crate::ratchet::ratchet_seeded(seed.1, 0, 0),
            )
            &&& forall|name: Seq<char>| #[trigger]
                made.content.entries.contains_key(name) <==> count < segments.len() && name
                    == segments[count]
        }),
{
    let nodes = directory.completed(segments, time, forest, seeds)->Ok_0;
    let child = nodes.tail.advanced();
    let writes = path_writes(nodes.path, child);
    let (root, after) = nodes.fixed_up(forest);
    lemma_completed_names(directory, segments, time, forest, seeds);
    lemma_made_directory(directory, segments, time, forest, seeds, existing, count);
    lemma_stored(nodes.path, child, forest);
    lemma_set_all(forest, writes);
    assert(after.written_since(forest) =~= writes);
    assert(writes.skip(0) =~= writes);
    lemma_all_found(nodes.path, child, forest, writes);
    lemma_updated_is_found(nodes.path, child, count, after);
    lemma_updated_is_found(nodes.path, child, count - 1, after);
    lemma_updated_fields(nodes, child, count);
    lemma_updated_fields(nodes, child, count - 1);
    if count < segments.len() {
        assert(nodes.path[count].1 == step_names(nodes.path)[count]);
    }
}

/// A directory of a path is found as it was stored.
proof fn lemma_updated_is_found(
    path: Seq<(PrivateDirectoryView, Seq<char>)>,
    child: PrivateDirectoryView,
    index: int,
    after: PrivateForestView,
)
    requires
        0 <= index <= path.len(),
        all_found(path, child, after),
    ensures
        updated(path, child, 0).node_at(step_names(path).take(index), after) == Ok::<
            _,
            FsErrorView,
        >(Some(PrivateNodeView::Dir(updated(path, child, index)))),
{
    let none: Seq<(PrivateDirectoryView, Seq<char>)> = Seq::empty();
    let names = step_names(path).take(index);
    assert(names =~= step_names(path).subrange(0, index));
    lemma_walk_updated(path, child, 0, index, none, after);
    lemma_walk_and_node(updated(path, child, 0), names, after);
}

/// A write makes each directory on the way to the file that was not there before: it has the time
/// of the write as its times, and its inumber and its ratchet come from a seed of its own. It is
/// named under the one before it, and leads to the next name alone.
#[verifier::rlimit(40)]
pub proof fn law_directories_on_the_way_to_a_file_are_new(
    directory: PrivateDirectoryView,
    segments: Seq<Seq<char>>,
    time: i64,
    content: Seq<u8>,
    forest: PrivateForestView,
    seeds: Seq<SeedView>,
    file_seed: SeedView,
    existing: int,
    count: int,
)
    requires
        directory.after_write(segments, time, content, forest, seeds, file_seed) is Ok,
        no_clash(
            directory.after_write(segments, time, content, forest, seeds, file_seed)->Ok_0.1
                .written_since(forest),
        ),
        ends_after(directory, segments.drop_last(), forest, existing),
        seeds.len() == segments.len() - 1 - existing,
        existing < count < segments.len(),
    ensures
        ({
            let (root, after) = directory.after_write(
                segments,
                time,
                content,
                forest,
                seeds,
                file_seed,
            )->Ok_0;
            let seed = seeds[count - existing - 1];
            &&& root.node_at(segments.take(count), after) matches Ok(
                Some(PrivateNodeView::Dir(made)),
            )
            &&& root.node_at(segments.take(count - 1), after) matches Ok(
                Some(PrivateNodeView::Dir(parent)),
            )
            &&& made.content.metadata.unix_fs.created == time
            &&& made.content.metadata.unix_fs.modified == time
            &&& made.content.metadata.unix_fs.kind == UnixFsNodeKind::Dir
            &&& made.header.inumber == seed.0
            &&& made.header.bare_name == parent.header.bare_name.push(seed.0)
            &&& made.header.ratchet == crate::ratchet::ratchet_next(
                crate::ratchet::ratchet_seeded(seed.1, 0, 0),
            )
            &&& forall|name: Seq<char>| #[trigger]
                made.content.entries.contains_key(name) <==> name == segments[count]
        }),
{
    let parents = segments.drop_last();
    let name = segments.last();
    let nodes = directory.completed(parents, time, forest, seeds)->Ok_0;
    let file = nodes.tail.file_to_put(name, time, content, forest, file_seed)->Ok_0;
    let private_ref = file.header.private_ref();
    let first = (private_ref, PrivateNodeView::File(file));
    let child = nodes.tail.with_entry(name, private_ref).advanced();
    let writes = seq![first] + path_writes(nodes.path, child);
    lemma_completed_names(directory, parents, time, forest, seeds);
    lemma_made_directory(directory, parents, time, forest, seeds, existing, count);
    lemma_stored(nodes.path, child, forest.set(first.0, first.1));
    lemma_set_first(forest, writes);
    assert(writes.drop_first() =~= path_writes(nodes.path, child));
    lemma_set_all(forest, writes);
    let after = set_all(forest, writes);
    assert(after.written_since(forest) =~= writes);
    assert(writes.skip(1) =~= path_writes(nodes.path, child));
    lemma_all_found(nodes.path, child, forest, writes);
    lemma_updated_is_found(nodes.path, child, count, after);
    lemma_updated_is_found(nodes.path, child, count - 1, after);
    lemma_updated_fields(nodes, child, count);
    lemma_updated_fields(nodes, child, count - 1);
    assert(step_names(nodes.path).take(count) =~= segments.take(count));
    assert(step_names(nodes.path).take(count - 1) =~= segments.take(count - 1));
    if count < parents.len() {
        assert(nodes.path[count].1 == step_names(nodes.path)[count]);
    }
}

/// It takes one seed for each directory that is not there yet on a path, and none where all are.
pub proof fn law_one_seed_for_each_missing_directory(
    directory: PrivateDirectoryView,
    segments: Seq<Seq<char>>,
    time: i64,
    forest: PrivateForestView,
    seeds: Seq<SeedView>,
    existing: int,
)
    requires
        directory.completed(segments, time, forest, seeds) is Ok,
    ensures
        ends_after(directory, segments, forest, existing) ==> directory.seeds_needed(
            segments,
            forest,
        ) == segments.len() - existing,
        directory.node_at(segments, forest) matches Ok(Some(PrivateNodeView::Dir(_)))
            ==> directory.seeds_needed(segments, forest) == 0,
{
    lemma_walk_and_node(directory, segments, forest);
    if ends_after(directory, segments, forest, existing) {
        lemma_missing_from(directory, segments, time, forest, seeds, existing);
    }
}

/// Whether a forest is another one with writes added to it, the last of which is that of the
/// root. All other places are as they were.
pub open spec fn adds_to(
    after: PrivateForestView,
    forest: PrivateForestView,
    count: nat,
    root: PrivateDirectoryView,
) -> bool {
    let old_count = forest.writes.len();
    &&& after.backed == forest.backed
    &&& after.writes.len() == old_count + count
    &&& after.writes.take(old_count as int) == forest.writes
    &&& after.writes.last() == (root.header.private_ref(), PrivateNodeView::Dir(root))
    &&& ({
        let root_ref = root.header.private_ref();
        let place = (root_ref.saturated_name_hash, root_ref.content_key);
        after.nodes.contains_key(place) && after.nodes[place] == Some(PrivateNodeView::Dir(root))
    })
    &&& forall|place: (Seq<u8>, Seq<u8>)|
        (forall|k: int|
            old_count <= k < after.writes.len() ==> place != (
                (#[trigger] after.writes[k]).0.saturated_name_hash,
                after.writes[k].0.content_key,
            )) ==> {
            &&& #[trigger] after.nodes.contains_key(place) == forest.nodes.contains_key(place)
            &&& after.nodes[place] == forest.nodes[place]
        }
}

/// A list of writes leaves all other places as they were.
proof fn lemma_other_places(
    forest: PrivateForestView,
    writes: Seq<(PrivateRefView, PrivateNodeView)>,
    place: (Seq<u8>, Seq<u8>),
)
    requires
        forall|k: int|
            0 <= k < writes.len() ==> place != (
                (#[trigger] writes[k]).0.saturated_name_hash,
                writes[k].0.content_key,
            ),
    ensures
        set_all(forest, writes).nodes.contains_key(place) == forest.nodes.contains_key(place),
        set_all(forest, writes).nodes[place] == forest.nodes[place],
    decreases writes.len(),
{
    if writes.len() > 0 {
        assert forall|k: int| 0 <= k < writes.len() - 1 implies place != (
            (#[trigger] writes.drop_last()[k]).0.saturated_name_hash,
            writes.drop_last()[k].0.content_key,
        ) by {
            assert(writes.drop_last()[k] == writes[k]);
        }
        lemma_other_places(forest, writes.drop_last(), place);
        assert(writes.last() == writes[writes.len() - 1]);
    }
}

/// Writes add to a forest.
proof fn lemma_adds_to(
    forest: PrivateForestView,
    writes: Seq<(PrivateRefView, PrivateNodeView)>,
    root: PrivateDirectoryView,
)
    requires
        writes.len() > 0,
        writes.last() == directory_write(root),
    ensures
        adds_to(set_all(forest, writes), forest, writes.len(), root),
{
    lemma_set_all(forest, writes);
    let after = set_all(forest, writes);
    let old_count = forest.writes.len();
    assert(after.writes.take(old_count as int) =~= forest.writes);
    assert forall|place: (Seq<u8>, Seq<u8>)|
        (forall|k: int|
            old_count <= k < after.writes.len() ==> place != (
                (#[trigger] after.writes[k]).0.saturated_name_hash,
                after.writes[k].0.content_key,
            )) implies {
        &&& #[trigger] after.nodes.contains_key(place) == forest.nodes.contains_key(place)
        &&& after.nodes[place] == forest.nodes[place]
    } by {
        assert forall|k: int| 0 <= k < writes.len() implies place != (
            (#[trigger] writes[k]).0.saturated_name_hash,
            writes[k].0.content_key,
        ) by {
            assert(after.writes[old_count + k] == writes[k]);
        }
        lemma_other_places(forest, writes, place);
    }
}

/// A write sets the file and every directory on the way to it, the root last. The forest is
/// otherwise as it was.
pub proof fn law_write_adds_to_the_forest(
    directory: PrivateDirectoryView,
    segments: Seq<Seq<char>>,
    time: i64,
    content: Seq<u8>,
    forest: PrivateForestView,
    seeds: Seq<SeedView>,
    file_seed: SeedView,
)
    ensures
        directory.after_write(segments, time, content, forest, seeds, file_seed) matches Ok(
            (root, after),
        ) ==> adds_to(after, forest, segments.len() + 1, root),
{
    if directory.after_write(segments, time, content, forest, seeds, file_seed) is Ok {
        let parents = segments.drop_last();
        let name = segments.last();
        let nodes = directory.completed(parents, time, forest, seeds)->Ok_0;
        let file = nodes.tail.file_to_put(name, time, content, forest, file_seed)->Ok_0;
        let private_ref = file.header.private_ref();
        let first = (private_ref, PrivateNodeView::File(file));
        let child = nodes.tail.with_entry(name, private_ref).advanced();
        let writes = seq![first] + path_writes(nodes.path, child);
        lemma_completed_names(directory, parents, time, forest, seeds);
        assert(nodes.path.len() == step_names(nodes.path).len());
        lemma_stored(nodes.path, child, forest.set(first.0, first.1));
        lemma_set_first(forest, writes);
        assert(writes.drop_first() =~= path_writes(nodes.path, child));
        lemma_adds_to(forest, writes, updated(nodes.path, child, 0));
    }
}

/// Making directories sets every directory on the path, the root last. The forest is otherwise as
/// it was.
pub proof fn law_mkdir_adds_to_the_forest(
    directory: PrivateDirectoryView,
    segments: Seq<Seq<char>>,
    time: i64,
    forest: PrivateForestView,
    seeds: Seq<SeedView>,
)
    ensures
        directory.after_mkdir(segments, time, forest, seeds) matches Ok((root, after)) ==> adds_to(
            after,
            forest,
            segments.len() + 1,
            root,
        ),
{
    if directory.after_mkdir(segments, time, forest, seeds) is Ok {
        let nodes = directory.completed(segments, time, forest, seeds)->Ok_0;
        let child = nodes.tail.advanced();
        lemma_completed_names(directory, segments, time, forest, seeds);
        assert(nodes.path.len() == step_names(nodes.path).len());
        lemma_stored(nodes.path, child, forest);
        lemma_adds_to(forest, path_writes(nodes.path, child), updated(nodes.path, child, 0));
    }
}

/// A removal sets every directory on the way to the removed node, the root last. The forest is
/// otherwise as it was: the removed node stays where it is.
pub proof fn law_rm_adds_to_the_forest(
    directory: PrivateDirectoryView,
    segments: Seq<Seq<char>>,
    forest: PrivateForestView,
)
    ensures
        directory.after_rm(segments, forest) matches Ok((root, after, _)) ==> adds_to(
            after,
            forest,
            segments.len(),
            root,
        ),
{
    if directory.after_rm(segments, forest) is Ok {
        let parents = segments.drop_last();
        let nodes = directory.walk(parents, forest)->Ok_0->Complete_0;
        let child = nodes.tail.without_entry(segments.last()).advanced();
        let none: Seq<(PrivateDirectoryView, Seq<char>)> = Seq::empty();
        lemma_walk_names(directory, none, parents, forest);
        assert(step_names(none) + parents =~= parents);
        assert(nodes.path.len() == step_names(nodes.path).len());
        lemma_stored(nodes.path, child, forest);
        lemma_adds_to(forest, path_writes(nodes.path, child), updated(nodes.path, child, 0));
    }
}

/// The next revision of a directory is stored under the next state of its ratchet, and is the
/// same node: its name, its inumber, its metadata and its entries stay.
pub proof fn law_next_revision_is_the_same_directory(directory: PrivateDirectoryView)
    ensures
        directory.advanced().header.bare_name == directory.header.bare_name,
        directory.advanced().header.inumber == directory.header.inumber,
        directory.advanced().header.ratchet == crate::ratchet::ratchet_next(
            directory.header.ratchet,
        ),
        directory.advanced().content.metadata == directory.content.metadata,
        directory.advanced().content.entries == directory.content.entries,
{
}

/// A reference leads to the revision that it was made from: it holds the digest of the revision's
/// key, the key itself, and the digest of the elements of the name with the key behind them.
pub proof fn law_reference_is_made_of_the_revision_key(header: PrivateNodeHeaderView)
    ensures
        header.private_ref().ratchet_key matches Some(RatchetKeyView::Bare(key)) && {
            &&& key == crate::ratchet::ratchet_key(
                header.ratchet,
                crate::private::node::REVISION_KEY_DOMAIN@,
            )
            &&& header.private_ref().content_key == crate::hash::sha3_256(key)
            &&& header.private_ref().saturated_name_hash == crate::hash::sha3_256(
                header.bare_name.flatten() + key,
            )
        },
{
    header.bare_name.lemma_flatten_push(header.revision_key());
}

/// What is set at a place is found there by every reference to it, and nothing else changes.
pub proof fn law_set_node_is_found(
    forest: PrivateForestView,
    private_ref: PrivateRefView,
    node: PrivateNodeView,
    other: PrivateRefView,
)
    ensures
        other.saturated_name_hash == private_ref.saturated_name_hash && other.content_key
            == private_ref.content_key ==> forest.set(private_ref, node).get(other) == Ok::<
            _,
            FsErrorView,
        >(Some(node)),
        other.saturated_name_hash != private_ref.saturated_name_hash || other.content_key
            != private_ref.content_key ==> forest.set(private_ref, node).get(other) == forest.get(
            other,
        ),
        forest.set(private_ref, node).writes == forest.writes.push((private_ref, node)),
        forest.set(private_ref, node).backed == forest.backed,
{
}

/// Whether each step of a path starts from the directory that the names before it lead to, and
/// has the next name.
pub open spec fn steps_along(
    directory: PrivateDirectoryView,
    path: Seq<(PrivateDirectoryView, Seq<char>)>,
    segments: Seq<Seq<char>>,
    forest: PrivateForestView,
) -> bool {
    path.len() <= segments.len() && forall|i: int|
        0 <= i < path.len() ==> (#[trigger] path[i]).1 == segments[i] && directory.node_at(
            segments.take(i),
            forest,
        ) == Ok::<_, FsErrorView>(Some(PrivateNodeView::Dir(path[i].0)))
}

/// A walk goes from directory to directory, name by name. It ends at the directory at the end of
/// the path, or at the last one before a file, before a name that leads nowhere, or before what
/// has to be fetched.
pub proof fn law_walk_goes_as_far_as_directories_lead(
    directory: PrivateDirectoryView,
    segments: Seq<Seq<char>>,
    forest: PrivateForestView,
)
    ensures
        match directory.walk(segments, forest) {
            Ok(PathNodesResultView::Complete(nodes)) => {
                &&& steps_along(directory, nodes.path, segments, forest)
                &&& nodes.path.len() == segments.len()
                &&& directory.node_at(segments, forest) == Ok::<_, FsErrorView>(
                    Some(PrivateNodeView::Dir(nodes.tail)),
                )
            },
            Ok(PathNodesResultView::MissingLink(nodes, name)) => {
                let count = nodes.path.len() as int;
                &&& steps_along(directory, nodes.path, segments, forest)
                &&& count < segments.len()
                &&& name == segments[count]
                &&& directory.node_at(segments.take(count), forest) == Ok::<_, FsErrorView>(
                    Some(PrivateNodeView::Dir(nodes.tail)),
                )
                &&& directory.node_at(segments.take(count + 1), forest) == Ok::<_, FsErrorView>(
                    None::<PrivateNodeView>,
                )
            },
            Ok(PathNodesResultView::NotADirectory(nodes, name)) => {
                let count = nodes.path.len() as int;
                &&& steps_along(directory, nodes.path, segments, forest)
                &&& count < segments.len()
                &&& name == segments[count]
                &&& directory.node_at(segments.take(count), forest) == Ok::<_, FsErrorView>(
                    Some(PrivateNodeView::Dir(nodes.tail)),
                )
                &&& is_file_at(directory, segments.take(count + 1), forest)
            },
            Err(error) => error is NotLoaded && directory.node_at(segments, forest) == Err::<
                Option<PrivateNodeView>,
                _,
            >(error),
        },
    decreases segments.len(),
{
    lemma_walk_and_node(directory, segments, forest);
    assert(segments.take(segments.len() as int) =~= segments);
    if segments.len() > 0 {
        let init = segments.drop_last();
        let last = seq![segments.last()];
        law_walk_goes_as_far_as_directories_lead(directory, init, forest);
        lemma_walk_and_node(directory, init, forest);
        lemma_walk_in_two(directory, Seq::empty(), init, last, forest);
        assert(init + last =~= segments);
        assert(last[0] == segments.last());
        assert(init =~= segments.take(segments.len() - 1));
        assert forall|i: int| 0 <= i <= init.len() implies #[trigger] init.take(i)
            == segments.take(i) by {
            assert(init.take(i) =~= segments.take(i));
        }
        match directory.walk(init, forest) {
            Ok(PathNodesResultView::Complete(nodes)) => {
                let longer = nodes.path.push((nodes.tail, last[0]));
                match nodes.tail.lookup(last[0], forest) {
                    Ok(Some(PrivateNodeView::Dir(child))) => {
                        assert(last.drop_first().len() == 0);
                        assert(nodes.tail.walk_on(nodes.path, last, forest) == child.walk_on(
                            longer,
                            last.drop_first(),
                            forest,
                        ));
                        assert forall|i: int| 0 <= i < longer.len() implies (
                        #[trigger] longer[i]).1 == segments[i] && directory.node_at(
                            segments.take(i),
                            forest,
                        ) == Ok::<_, FsErrorView>(Some(PrivateNodeView::Dir(longer[i].0))) by {
                            if i < nodes.path.len() {
                                assert(longer[i] == nodes.path[i]);
                                assert(init.take(i) == segments.take(i));
                            }
                        }
                    },
                    _ => {
                        assert forall|i: int| 0 <= i < nodes.path.len() implies (
                        #[trigger] nodes.path[i]).1 == segments[i] && directory.node_at(
                            segments.take(i),
                            forest,
                        ) == Ok::<_, FsErrorView>(Some(PrivateNodeView::Dir(nodes.path[i].0))) by {
                            assert(init.take(i) == segments.take(i));
                        }
                    },
                }
            },
            Ok(PathNodesResultView::MissingLink(nodes, _))
            | Ok(PathNodesResultView::NotADirectory(nodes, _)) => {
                assert forall|i: int| 0 <= i < nodes.path.len() implies (
                #[trigger] nodes.path[i]).1 == segments[i] && directory.node_at(
                    segments.take(i),
                    forest,
                ) == Ok::<_, FsErrorView>(Some(PrivateNodeView::Dir(nodes.path[i].0))) by {
                    assert(init.take(i) == segments.take(i));
                }
                let count = nodes.path.len() as int;
                assert(init.take(count) == segments.take(count));
                assert(init.take(count + 1) == segments.take(count + 1));
            },
            Err(_) => {},
        }
    }
}

/// A path dangles exactly if its last name is in a directory that is there, and there is no node
/// where that name leads to.
pub proof fn law_dangling_name_is_there_and_leads_nowhere(
    directory: PrivateDirectoryView,
    path: Seq<Seq<char>>,
    name: Seq<char>,
    forest: PrivateForestView,
)
    ensures
        directory.dangles(path.push(name), forest) <==> {
            &&& directory.node_at(path, forest) matches Ok(Some(PrivateNodeView::Dir(parent)))
            &&& parent.content.entries.contains_key(name)
            &&& leads_nowhere(parent, name, forest)
        },
        !directory.dangles(Seq::empty(), forest),
{
    lemma_walk_and_node(directory, path, forest);
    assert(path.push(name).drop_last() =~= path);
    assert(path.push(name).last() == name);
}

/// Directories that are created along a path have its names between them. Each is empty, has the
/// time that was given as its times, and is named under the one before it; its inumber and its
/// ratchet come from its seed.
pub proof fn law_created_path_is_new(
    segments: Seq<Seq<char>>,
    time: i64,
    parent_bare_name: Seq<Seq<u8>>,
    seeds: Seq<SeedView>,
    index: int,
)
    requires
        seeds.len() == segments.len() + 1,
        0 <= index <= segments.len(),
    ensures
        ({
            let nodes = PathNodesView::created(segments, time, parent_bare_name, seeds);
            let made = if index < segments.len() {
                nodes.path[index].0
            } else {
                nodes.tail
            };
            let above = if index == 0 {
                parent_bare_name
            } else {
                nodes.path[index - 1].0.header.bare_name
            };
            &&& nodes.path.len() == segments.len()
            &&& index < segments.len() ==> nodes.path[index].1 == segments[index]
            &&& made.content.metadata.unix_fs.created == time
            &&& made.content.metadata.unix_fs.modified == time
            &&& made.content.metadata.unix_fs.kind == UnixFsNodeKind::Dir
            &&& made.content.entries.dom() == Set::<Seq<char>>::empty()
            &&& made.header.inumber == seeds[index].0
            &&& made.header.ratchet == crate::ratchet::ratchet_seeded(seeds[index].1, 0, 0)
            &&& made.header.bare_name == above.push(seeds[index].0)
        }),
{
    if index == 0 {
        assert(parent_bare_name + seeds.take(0).map_values(|seed: SeedView| seed.0)
            =~= parent_bare_name);
    } else {
        assert(parent_bare_name + seeds.take(index).map_values(|seed: SeedView| seed.0) =~= (
        parent_bare_name + seeds.take(index - 1).map_values(|seed: SeedView| seed.0)).push(
            seeds[index - 1].0,
        ));
    }
    assert(Map::<Seq<char>, PrivateRefView>::empty().dom() =~= Set::empty());
}

/// A write makes a new file exactly where there is none yet.
pub proof fn law_write_makes_a_file_where_there_is_none(
    directory: PrivateDirectoryView,
    segments: Seq<Seq<char>>,
    time: i64,
    content: Seq<u8>,
    forest: PrivateForestView,
    seeds: Seq<SeedView>,
    file_seed: SeedView,
)
    requires
        directory.after_write(segments, time, content, forest, seeds, file_seed) is Ok,
    ensures
        directory.makes_file(segments, time, forest, seeds) <==> !is_file_at(
            directory,
            segments,
            forest,
        ),
{
    let parents = segments.drop_last();
    lemma_walk_and_node(directory, parents, forest);
    lemma_walk_and_node(directory, segments, forest);
}

} // verus!
