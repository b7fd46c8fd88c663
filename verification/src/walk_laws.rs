//! The walk gathers the regular files of a folder.
//!
//! A folder is taken here as the tree that a walk meets: the entries of its
//! listing, each directory with its own listing. The walk of
//! [`crate::folder_walk`], answered from such a tree, ends with the files
//! of the tree in depth-first order, or with the first failure in that
//! order.

use crate::folder_walk::{
    advance, failure_at, step_of, without_first, FolderWalkView, GatherError, ListedEntryView,
    WalkEventView, WalkStepView,
};
use crate::folder_index::{FolderIndexView, IndexedFileView};
use crate::index_laws::{lemma_distinct_paths_fill_in_order, lemma_one_slot_per_path, paths_of};
use vstd::prelude::*;

verus! {

/// An entry of a listing, with what lies below it.
pub enum Node {
    /// An entry that cannot be read.
    Unreadable,
    /// A regular file, with its path where the path is text.
    File(Option<Seq<char>>),
    /// A directory, with its path where the path is text, and with its
    /// listing where it can be read.
    Directory(Option<Seq<char>>, Option<Seq<Node>>),
    /// Neither a directory nor a regular file.
    Other,
}

/// What a listing shows of an entry.
pub open spec fn entry_of(node: Node) -> ListedEntryView {
    match node {
        Node::Unreadable => ListedEntryView::Unreadable,
        Node::File(path) => ListedEntryView::File(path),
        Node::Directory(path, _) => ListedEntryView::Directory(path),
        Node::Other => ListedEntryView::Other,
    }
}

/// The listing of a directory that holds `nodes`.
pub open spec fn listing_of(nodes: Seq<Node>) -> Seq<ListedEntryView> {
    Seq::new(nodes.len(), |i: int| entry_of(nodes[i]))
}

/// What a caller finds when it reads a directory with the content
/// `content`.
pub open spec fn event_of(content: Option<Seq<Node>>) -> WalkEventView {
    match content {
        Some(nodes) => WalkEventView::Listed(listing_of(nodes)),
        None => WalkEventView::Unreadable,
    }
}

/// The result of gathering one after the other.
pub open spec fn and_then(
    first: Result<Seq<Seq<char>>, GatherError>,
    second: Result<Seq<Seq<char>>, GatherError>,
) -> Result<Seq<Seq<char>>, GatherError> {
    match first {
        Err(error) => Err(error),
        Ok(files) => match second {
            Err(error) => Err(error),
            Ok(more) => Ok(files + more),
        },
    }
}

/// The files of the entries `nodes`, which lie `depth` directories below
/// the outside: each regular file once, in the order of the listing, a
/// directory standing for the files below it. The first entry that cannot
/// be read, or whose path is no text, or that is a directory which cannot
/// be read, makes the whole a failure.
pub open spec fn files_below(nodes: Seq<Node>, depth: nat) -> Result<Seq<Seq<char>>, GatherError>
    decreases nodes,
{
    if nodes.len() == 0 {
        Ok(Seq::empty())
    } else {
        let here = match nodes[0] {
            Node::Unreadable => Err(failure_at(depth, GatherError::Unreadable)),
            Node::File(None) => Err(failure_at(depth, GatherError::PathNotText)),
            Node::Directory(None, _) => Err(failure_at(depth, GatherError::PathNotText)),
            Node::File(Some(path)) => Ok(seq![path]),
            Node::Other => Ok(Seq::empty()),
            Node::Directory(Some(_), None) => Err(
                failure_at(depth + 1, GatherError::Unreadable),
            ),
            Node::Directory(Some(_), Some(children)) => files_below(children, depth + 1),
        };
        and_then(here, files_below(nodes.drop_first(), depth))
    }
}

/// What gathering the folder with the content `root` gives.
pub open spec fn gathered(root: Option<Seq<Node>>) -> Result<Seq<Seq<char>>, GatherError> {
    match root {
        None => Err(GatherError::Unreadable),
        Some(nodes) => files_below(nodes, 1),
    }
}

/// Every entry below `nodes` can be read and has a path that is text.
pub open spec fn sound(nodes: Seq<Node>) -> bool
    decreases nodes,
{
    if nodes.len() == 0 {
        true
    } else {
        let here = match nodes[0] {
            Node::File(Some(_)) => true,
            Node::Other => true,
            Node::Directory(Some(_), Some(children)) => sound(children),
            _ => false,
        };
        here && sound(nodes.drop_first())
    }
}

/// The paths of the regular files below `nodes`, in depth-first order.
pub open spec fn regular_files(nodes: Seq<Node>) -> Seq<Seq<char>>
    decreases nodes,
{
    if nodes.len() == 0 {
        Seq::empty()
    } else {
        let here = match nodes[0] {
            Node::File(Some(path)) => seq![path],
            Node::Directory(_, Some(children)) => regular_files(children),
            _ => Seq::empty(),
        };
        here + regular_files(nodes.drop_first())
    }
}

/// The number of regular files below `nodes`.
pub open spec fn count_files(nodes: Seq<Node>) -> nat
    decreases nodes,
{
    if nodes.len() == 0 {
        0
    } else {
        let here: nat = match nodes[0] {
            Node::File(_) => 1,
            Node::Directory(_, Some(children)) => count_files(children),
            _ => 0,
        };
        here + count_files(nodes.drop_first())
    }
}

/// Where every entry can be read, gathering gives each regular file once;
/// where one cannot, gathering fails.
pub proof fn lemma_files_below_sound(nodes: Seq<Node>, depth: nat)
    ensures
        sound(nodes) ==> files_below(nodes, depth) == Ok::<Seq<Seq<char>>, GatherError>(
            regular_files(nodes),
        ),
        sound(nodes) ==> regular_files(nodes).len() == count_files(nodes),
        !sound(nodes) ==> files_below(nodes, depth) is Err,
    decreases nodes,
{
    if nodes.len() > 0 {
        lemma_files_below_sound(nodes.drop_first(), depth);
        match nodes[0] {
            Node::Directory(Some(_), Some(children)) => {
                lemma_files_below_sound(children, depth + 1);
            },
            _ => {},
        }
    }
}

/// The number of steps that `nodes` can take a walk.
pub open spec fn steps_in(nodes: Seq<Node>) -> nat
    decreases nodes,
{
    if nodes.len() == 0 {
        0
    } else {
        let here: nat = match nodes[0] {
            Node::Directory(_, Some(children)) => steps_in(children) + 2,
            _ => 1,
        };
        here + steps_in(nodes.drop_first())
    }
}

/// The number of steps that the directories `trees` can take a walk that
/// has entered them.
pub open spec fn steps_left(trees: Seq<Seq<Node>>) -> nat
    decreases trees.len(),
{
    if trees.len() == 0 {
        0
    } else {
        steps_left(trees.drop_last()) + steps_in(trees.last()) + 1
    }
}

/// The number of steps that a walk can take which has entered `trees` and
/// asks for a directory with the content `asked`.
pub open spec fn steps_ahead(trees: Seq<Seq<Node>>, asked: Option<Seq<Node>>) -> nat {
    match asked {
        Some(nodes) => steps_left(trees.push(nodes)),
        None => steps_left(trees),
    }
}

/// The listings of the directories `trees`.
pub open spec fn listings_of(trees: Seq<Seq<Node>>) -> Seq<Seq<ListedEntryView>> {
    Seq::new(trees.len(), |i: int| listing_of(trees[i]))
}

/// `trees` with the first entry of its innermost directory taken off.
pub open spec fn without_first_node(trees: Seq<Seq<Node>>) -> Seq<Seq<Node>> {
    trees.drop_last().push(trees.last().drop_first())
}

/// The directory that a walk asks for next which has entered `trees`: what
/// is left of `trees` behind it, and its content. There is none where the
/// walk ends first.
pub open spec fn seek(trees: Seq<Seq<Node>>) -> Option<(Seq<Seq<Node>>, Option<Seq<Node>>)>
    decreases trees.len(), trees_innermost_len(trees),
{
    if trees.len() == 0 {
        None
    } else if trees.last().len() == 0 {
        seek(trees.drop_last())
    } else {
        match trees.last()[0] {
            Node::Directory(Some(_), content) => Some((without_first_node(trees), content)),
            Node::File(Some(_)) => seek(without_first_node(trees)),
            Node::Other => seek(without_first_node(trees)),
            _ => None,
        }
    }
}

/// The number of entries that the innermost directory of `trees` has left.
pub open spec fn trees_innermost_len(trees: Seq<Seq<Node>>) -> nat {
    if trees.len() > 0 {
        trees.last().len()
    } else {
        0
    }
}

/// A walk that has entered no directory and gathered no file.
pub open spec fn fresh_walk() -> FolderWalkView {
    FolderWalkView { pending: Seq::empty(), files: Seq::empty() }
}

/// How a walk ends with `step`, where it ends with it.
pub open spec fn ending(step: WalkStepView) -> Option<Result<Seq<Seq<char>>, GatherError>> {
    match step {
        WalkStepView::Done(files) => Some(Ok(files)),
        WalkStepView::Failed(error) => Some(Err(error)),
        WalkStepView::ReadDir { walk, path } => None,
    }
}

/// Runs a walk to its end. The walk has entered `trees` and asks for a
/// directory with the content `asked`; each time it asks for a directory it
/// gets what the tree holds there. `fuel` bounds the number of directories
/// that are read: where it does not suffice there is no result.
pub open spec fn run(
    walk: FolderWalkView,
    trees: Seq<Seq<Node>>,
    asked: Option<Seq<Node>>,
    fuel: nat,
) -> Option<Result<Seq<Seq<char>>, GatherError>>
    decreases fuel,
{
    match step_of(walk, event_of(asked)) {
        WalkStepView::ReadDir { walk: next, path } => {
            if fuel == 0 || asked is None || seek(trees.push(asked->0)) is None {
                None
            } else {
                let found = seek(trees.push(asked->0))->0;
                run(next, found.0, found.1, (fuel - 1) as nat)
            }
        },
        ended => ending(ended),
    }
}

/// What gathering the rest of the directories `trees` adds to `files`: the
/// innermost directory first, then those around it.
pub open spec fn rest_result(trees: Seq<Seq<Node>>, files: Seq<Seq<char>>) -> Result<
    Seq<Seq<char>>,
    GatherError,
>
    decreases trees.len(),
{
    if trees.len() == 0 {
        Ok(files)
    } else {
        match files_below(trees.last(), trees.len()) {
            Err(error) => Err(error),
            Ok(more) => rest_result(trees.drop_last(), files + more),
        }
    }
}

/// What a walk has to end with that has gathered `files`, has entered
/// `trees`, and asks for a directory with the content `asked`.
pub open spec fn expected(
    files: Seq<Seq<char>>,
    trees: Seq<Seq<Node>>,
    asked: Option<Seq<Node>>,
) -> Result<Seq<Seq<char>>, GatherError> {
    match asked {
        None => Err(failure_at(trees.len() + 1, GatherError::Unreadable)),
        Some(nodes) => rest_result(trees.push(nodes), files),
    }
}

proof fn lemma_listings_push(trees: Seq<Seq<Node>>, nodes: Seq<Node>)
    ensures
        listings_of(trees.push(nodes)) == listings_of(trees).push(listing_of(nodes)),
{
    assert(listings_of(trees.push(nodes)) =~= listings_of(trees).push(listing_of(nodes)));
}

proof fn lemma_listings_drop_last(trees: Seq<Seq<Node>>)
    requires
        trees.len() > 0,
    ensures
        listings_of(trees.drop_last()) == listings_of(trees).drop_last(),
        listings_of(trees).last() == listing_of(trees.last()),
{
    assert(listings_of(trees.drop_last()) =~= listings_of(trees).drop_last());
}

proof fn lemma_listings_without_first(trees: Seq<Seq<Node>>)
    requires
        trees.len() > 0,
        trees.last().len() > 0,
    ensures
        listings_of(without_first_node(trees)) == without_first(listings_of(trees)),
        listings_of(trees).last()[0] == entry_of(trees.last()[0]),
        listings_of(trees).last().len() == trees.last().len(),
{
    let nodes = trees.last();
    assert(listing_of(nodes.drop_first()) =~= listing_of(nodes).drop_first());
    lemma_listings_drop_last(trees);
    lemma_listings_push(trees.drop_last(), nodes.drop_first());
}

/// Taking the first entry off the innermost directory leaves fewer steps.
proof fn lemma_steps_without_first(trees: Seq<Seq<Node>>)
    requires
        trees.len() > 0,
        trees.last().len() > 0,
    ensures
        steps_left(without_first_node(trees)) + steps_in(trees.last()) == steps_left(trees)
            + steps_in(trees.last().drop_first()),
        steps_in(trees.last().drop_first()) < steps_in(trees.last()),
{
    let shorter = without_first_node(trees);
    assert(shorter.drop_last() =~= trees.drop_last());
    assert(shorter.last() == trees.last().drop_first());
}

/// The directory that a walk asks for next leaves fewer steps than there
/// were.
proof fn lemma_seek_takes_steps(trees: Seq<Seq<Node>>)
    ensures
        seek(trees) matches Some(found) ==> steps_ahead(found.0, found.1) < steps_left(trees),
    decreases trees.len(), trees_innermost_len(trees),
{
    if trees.len() == 0 {
    } else if trees.last().len() == 0 {
        lemma_seek_takes_steps(trees.drop_last());
    } else {
        lemma_steps_without_first(trees);
        let rest = without_first_node(trees);
        match trees.last()[0] {
            Node::Directory(Some(_), content) => {
                match content {
                    Some(children) => {
                        assert(rest.push(children).drop_last() =~= rest);
                    },
                    None => {},
                }
            },
            Node::File(Some(_)) => {
                lemma_seek_takes_steps(rest);
            },
            Node::Other => {
                lemma_seek_takes_steps(rest);
            },
            _ => {},
        }
    }
}

/// What the rest of the directories adds, the first entry of the innermost
/// directory apart.
proof fn lemma_rest_result_first(trees: Seq<Seq<Node>>, files: Seq<Seq<char>>)
    requires
        trees.len() > 0,
        trees.last().len() > 0,
    ensures
        trees.last()[0] is Other ==> rest_result(trees, files) == rest_result(
            without_first_node(trees),
            files,
        ),
        trees.last()[0] matches Node::File(Some(path)) ==> rest_result(trees, files)
            == rest_result(without_first_node(trees), files.push(path)),
        trees.last()[0] matches Node::Directory(Some(_), content) ==> rest_result(trees, files)
            == expected(files, without_first_node(trees), content),
        trees.last()[0] is Unreadable ==> rest_result(trees, files) == Err::<
            Seq<Seq<char>>,
            GatherError,
        >(failure_at(trees.len(), GatherError::Unreadable)),
        trees.last()[0] matches Node::File(None) ==> rest_result(trees, files) == Err::<
            Seq<Seq<char>>,
            GatherError,
        >(failure_at(trees.len(), GatherError::PathNotText)),
        trees.last()[0] matches Node::Directory(None, _) ==> rest_result(trees, files) == Err::<
            Seq<Seq<char>>,
            GatherError,
        >(failure_at(trees.len(), GatherError::PathNotText)),
{
    let nodes = trees.last();
    let depth = trees.len();
    let rest = without_first_node(trees);
    assert(rest.drop_last() =~= trees.drop_last());
    assert(rest.last() == nodes.drop_first());
    let behind = files_below(nodes.drop_first(), depth);
    match nodes[0] {
        Node::Other => {
            if behind is Ok {
                assert(Seq::<Seq<char>>::empty() + behind->Ok_0 =~= behind->Ok_0);
            }
        },
        Node::File(Some(path)) => {
            if behind is Ok {
                assert(files + (seq![path] + behind->Ok_0) =~= files.push(path) + behind->Ok_0);
            }
        },
        Node::Directory(Some(_), Some(children)) => {
            let entered = rest.push(children);
            assert(entered.drop_last() =~= rest);
            assert(entered.last() == children);
            let inside = files_below(children, depth + 1);
            if inside is Ok && behind is Ok {
                assert(files + (inside->Ok_0 + behind->Ok_0) =~= (files + inside->Ok_0)
                    + behind->Ok_0);
            }
            if inside is Ok {
                let gathered = files + inside->Ok_0;
                assert(rest_result(entered, files) == rest_result(rest, gathered));
                assert(rest_result(rest, gathered) == match behind {
                    Err(error) => Err(error),
                    Ok(more) => rest_result(trees.drop_last(), gathered + more),
                });
            }
        },
        Node::Directory(Some(_), None) => {
            assert(rest.len() == trees.len());
        },
        _ => {},
    }
}

/// The walk deals with the entries that it has as gathering deals with
/// the tree: it ends as gathering ends, or asks for the directory that
/// comes next.
proof fn lemma_advance_follows_tree(trees: Seq<Seq<Node>>, files: Seq<Seq<char>>)
    ensures
        match seek(trees) {
            None => ending(advance(listings_of(trees), files)) == Some(
                rest_result(trees, files),
            ),
            Some(found) => advance(listings_of(trees), files) matches WalkStepView::ReadDir {
                walk,
                path,
            } && walk.pending == listings_of(found.0) && expected(walk.files, found.0, found.1)
                == rest_result(trees, files),
        },
    decreases trees.len(), trees_innermost_len(trees),
{
    if trees.len() == 0 {
        assert(listings_of(trees) =~= Seq::<Seq<ListedEntryView>>::empty());
    } else if trees.last().len() == 0 {
        lemma_listings_drop_last(trees);
        lemma_advance_follows_tree(trees.drop_last(), files);
        assert(files + Seq::<Seq<char>>::empty() =~= files);
    } else {
        lemma_listings_without_first(trees);
        lemma_rest_result_first(trees, files);
        let rest = without_first_node(trees);
        match trees.last()[0] {
            Node::File(Some(path)) => {
                lemma_advance_follows_tree(rest, files.push(path));
            },
            Node::Other => {
                lemma_advance_follows_tree(rest, files);
            },
            _ => {},
        }
    }
}

/// A walk that is answered from the tree ends as gathering the rest of the
/// tree ends.
proof fn lemma_run_follows_tree(
    walk: FolderWalkView,
    trees: Seq<Seq<Node>>,
    asked: Option<Seq<Node>>,
    fuel: nat,
)
    requires
        walk.pending == listings_of(trees),
        fuel >= steps_ahead(trees, asked),
    ensures
        run(walk, trees, asked, fuel) == Some(expected(walk.files, trees, asked)),
    decreases fuel,
{
    match asked {
        None => {},
        Some(nodes) => {
            let entered = trees.push(nodes);
            lemma_listings_push(trees, nodes);
            lemma_advance_follows_tree(entered, walk.files);
            lemma_seek_takes_steps(entered);
            match seek(entered) {
                None => {},
                Some(found) => {
                    let next = advance(listings_of(entered), walk.files)->walk;
                    lemma_run_follows_tree(next, found.0, found.1, (fuel - 1) as nat);
                },
            }
        },
    }
}

/// The walk of a folder, answered from the tree that the folder is, ends
/// with what gathering the tree gives: the files of the tree, each once and
/// in depth-first order, or the first failure in that order.
pub proof fn lemma_walk_gathers_tree(root: Option<Seq<Node>>, fuel: nat)
    requires
        fuel >= steps_ahead(Seq::empty(), root),
    ensures
        run(fresh_walk(), Seq::empty(), root, fuel) == Some(gathered(root)),
{
    let walk = fresh_walk();
    let trees = Seq::<Seq<Node>>::empty();
    assert(walk.pending =~= listings_of(trees));
    lemma_run_follows_tree(walk, trees, root, fuel);
    match root {
        None => {
            assert(trees.len() == 0);
        },
        Some(nodes) => {
            let entered = trees.push(nodes);
            assert(entered.drop_last() =~= trees);
            assert(entered.last() == nodes);
            if files_below(nodes, 1) is Ok {
                let found = files_below(nodes, 1)->Ok_0;
                assert(Seq::<Seq<char>>::empty() + found =~= found);
                assert(rest_result(trees, found) == Ok::<Seq<Seq<char>>, GatherError>(found));
            }
        },
    }
}

/// The walk of a folder all of whose entries can be read ends with each
/// regular file below the folder, once.
pub proof fn lemma_walk_finds_each_file(nodes: Seq<Node>, fuel: nat)
    requires
        sound(nodes),
        fuel >= steps_ahead(Seq::empty(), Some(nodes)),
    ensures
        run(fresh_walk(), Seq::empty(), Some(nodes), fuel) == Some(
            Ok::<Seq<Seq<char>>, GatherError>(regular_files(nodes)),
        ),
        regular_files(nodes).len() == count_files(nodes),
{
    lemma_walk_gathers_tree(Some(nodes), fuel);
    lemma_files_below_sound(nodes, 1);
}

/// Indexing a folder all of whose entries can be read gives a slot to each
/// regular file below the folder and to nothing else, whatever reading the
/// files gave: the walk ends with the paths of the files, and the index of
/// what was loaded under these paths holds exactly them.
pub proof fn lemma_index_holds_the_files_of_the_tree(
    nodes: Seq<Node>,
    loaded: Seq<(Seq<char>, IndexedFileView)>,
    fuel: nat,
)
    requires
        sound(nodes),
        fuel >= steps_ahead(Seq::empty(), Some(nodes)),
        paths_of(loaded) == regular_files(nodes),
    ensures
        run(fresh_walk(), Seq::empty(), Some(nodes), fuel) == Some(
            Ok::<Seq<Seq<char>>, GatherError>(paths_of(loaded)),
        ),
        FolderIndexView::empty().insert_all(loaded).wf(),
        forall|path: Seq<char>|
            FolderIndexView::empty().insert_all(loaded).entries.contains_key(path)
                <==> regular_files(nodes).contains(path),
{
    lemma_walk_finds_each_file(nodes, fuel);
    lemma_one_slot_per_path(loaded);
    let files = regular_files(nodes);
    let index = FolderIndexView::empty().insert_all(loaded);
    assert forall|path: Seq<char>| index.entries.contains_key(path) <==> files.contains(
        path,
    ) by {
        if index.entries.contains_key(path) {
            let i = choose|i: int| 0 <= i < loaded.len() && (#[trigger] loaded[i]).0 == path;
            assert(files[i] == path);
        }
        if files.contains(path) {
            let i = choose|i: int| 0 <= i < files.len() && files[i] == path;
            assert(loaded[i].0 == path);
        }
    }
}

/// Indexing a folder all of whose entries can be read, and no two of whose
/// regular files have the same path, gives exactly one slot to each regular
/// file below the folder: the index has as many slots as the folder has
/// regular files, and goes through them in the order of the walk.
pub proof fn lemma_index_counts_the_files(
    nodes: Seq<Node>,
    loaded: Seq<(Seq<char>, IndexedFileView)>,
)
    requires
        sound(nodes),
        regular_files(nodes).no_duplicates(),
        paths_of(loaded) == regular_files(nodes),
    ensures
        FolderIndexView::empty().insert_all(loaded).order == regular_files(nodes),
        FolderIndexView::empty().insert_all(loaded).order.len() == count_files(nodes),
        FolderIndexView::empty().insert_all(loaded).entries.len() == count_files(nodes),
{
    lemma_files_below_sound(nodes, 1);
    lemma_distinct_paths_fill_in_order(loaded);
    assert(loaded.len() == paths_of(loaded).len());
}

} // verus!
