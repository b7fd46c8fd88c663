//! What holds of every index of a folder.

use crate::folder_index::{lemma_distinct_order_counts, FolderIndexView, IndexedFileView};
use vstd::prelude::*;

verus! {

/// What was loaded last under `path` among `files`.
pub open spec fn last_with_path(files: Seq<(Seq<char>, IndexedFileView)>, path: Seq<char>) -> Option<
    IndexedFileView,
>
    decreases files.len(),
{
    if files.len() == 0 {
        None
    } else if files.last().0 == path {
        Some(files.last().1)
    } else {
        last_with_path(files.drop_last(), path)
    }
}

/// Something was loaded under `path` exactly where `path` is the path of
/// one of `files`.
pub proof fn lemma_last_with_path_some(files: Seq<(Seq<char>, IndexedFileView)>, path: Seq<char>)
    ensures
        last_with_path(files, path) is Some <==> exists|i: int|
            0 <= i < files.len() && (#[trigger] files[i]).0 == path,
    decreases files.len(),
{
    if files.len() > 0 {
        let shorter = files.drop_last();
        lemma_last_with_path_some(shorter, path);
        if files.last().0 == path {
            assert(files[files.len() - 1].0 == path);
        } else {
            if exists|i: int| 0 <= i < shorter.len() && (#[trigger] shorter[i]).0 == path {
                let i = choose|i: int| 0 <= i < shorter.len() && (#[trigger] shorter[i]).0 == path;
                assert(files[i] == shorter[i]);
            }
            if exists|i: int| 0 <= i < files.len() && (#[trigger] files[i]).0 == path {
                let i = choose|i: int| 0 <= i < files.len() && (#[trigger] files[i]).0 == path;
                assert(shorter[i] == files[i]);
            }
        }
    }
}

/// An index stays well formed when a file comes in.
pub proof fn lemma_insert_keeps_wf(index: FolderIndexView, path: Seq<char>, file: IndexedFileView)
    requires
        index.wf(),
    ensures
        index.insert(path, file).wf(),
{
    let after = index.insert(path, file);
    if index.entries.contains_key(path) {
        assert(after.order == index.order);
        assert forall|other: Seq<char>| after.entries.contains_key(other) <==> exists|i: int|
            0 <= i < after.order.len() && after.order[i] == other by {
            if other == path {
                assert(index.entries.contains_key(path));
            }
        }
    } else {
        let end = index.order.len() as int;
        assert forall|i: int, j: int| 0 <= i < j < after.order.len() implies after.order[i]
            != after.order[j] by {
            if j == end {
                assert(after.order[i] == index.order[i]);
                if index.order[i] == path {
                    assert(index.entries.contains_key(path));
                }
            }
        }
        assert forall|other: Seq<char>| after.entries.contains_key(other) <==> exists|i: int|
            0 <= i < after.order.len() && after.order[i] == other by {
            if other == path {
                assert(after.order[end] == path);
            } else {
                if index.entries.contains_key(other) {
                    let i = choose|i: int| 0 <= i < index.order.len() && index.order[i] == other;
                    assert(after.order[i] == other);
                }
                if exists|i: int| 0 <= i < after.order.len() && after.order[i] == other {
                    let i = choose|i: int| 0 <= i < after.order.len() && after.order[i] == other;
                    assert(index.order[i] == other);
                }
            }
        }
    }
}

/// What an index holds after files came in: under a path of the files what
/// was loaded last under it, under any other path what it held before.
pub proof fn lemma_insert_all_entries(
    index: FolderIndexView,
    files: Seq<(Seq<char>, IndexedFileView)>,
    path: Seq<char>,
)
    ensures
        index.insert_all(files).entries.contains_key(path) <==> index.entries.contains_key(path)
            || last_with_path(files, path) is Some,
        last_with_path(files, path) is Some ==> index.insert_all(files).entries[path]
            == last_with_path(files, path)->0,
        last_with_path(files, path) is None ==> index.insert_all(files).entries[path]
            == index.entries[path],
    decreases files.len(),
{
    if files.len() > 0 {
        lemma_insert_all_entries(index, files.drop_last(), path);
    }
}

/// An index stays well formed when files come in.
pub proof fn lemma_insert_all_wf(index: FolderIndexView, files: Seq<(Seq<char>, IndexedFileView)>)
    requires
        index.wf(),
    ensures
        index.insert_all(files).wf(),
    decreases files.len(),
{
    if files.len() > 0 {
        lemma_insert_all_wf(index, files.drop_last());
        lemma_insert_keeps_wf(index.insert_all(files.drop_last()), files.last().0, files.last().1);
    }
}

/// The index of a folder has exactly one slot for each path that was
/// loaded, whatever reading the file gave; and the slot holds what was
/// loaded last under the path.
pub proof fn lemma_one_slot_per_path(files: Seq<(Seq<char>, IndexedFileView)>)
    ensures
        FolderIndexView::empty().insert_all(files).wf(),
        forall|path: Seq<char>|
            FolderIndexView::empty().insert_all(files).entries.contains_key(path) <==> exists|
                i: int,
            |
                0 <= i < files.len() && (#[trigger] files[i]).0 == path,
        forall|i: int|
            0 <= i < files.len() ==> FolderIndexView::empty().insert_all(files).entries[(
            #[trigger] files[i]).0] == last_with_path(files, files[i].0)->0,
        FolderIndexView::empty().insert_all(files).entries.dom().finite(),
        FolderIndexView::empty().insert_all(files).entries.len() == FolderIndexView::empty().insert_all(
            files,
        ).order.len(),
{
    let index = FolderIndexView::empty().insert_all(files);
    assert(FolderIndexView::empty().wf());
    lemma_insert_all_wf(FolderIndexView::empty(), files);
    assert forall|path: Seq<char>| index.entries.contains_key(path) <==> exists|i: int|
        0 <= i < files.len() && (#[trigger] files[i]).0 == path by {
        lemma_insert_all_entries(FolderIndexView::empty(), files, path);
        lemma_last_with_path_some(files, path);
    }
    assert forall|i: int| 0 <= i < files.len() implies index.entries[(#[trigger] files[i]).0]
        == last_with_path(files, files[i].0)->0 by {
        lemma_insert_all_entries(FolderIndexView::empty(), files, files[i].0);
        lemma_last_with_path_some(files, files[i].0);
    }
    lemma_distinct_order_counts(index.order, index.entries.dom());
}

/// The paths of `files`, in their order.
pub open spec fn paths_of(files: Seq<(Seq<char>, IndexedFileView)>) -> Seq<Seq<char>> {
    Seq::new(files.len(), |i: int| files[i].0)
}

/// Which slots an index has, and in which order, depends on the paths
/// alone: not on what reading the files gave.
pub proof fn lemma_slots_ignore_content(
    left: Seq<(Seq<char>, IndexedFileView)>,
    right: Seq<(Seq<char>, IndexedFileView)>,
)
    requires
        paths_of(left) == paths_of(right),
    ensures
        FolderIndexView::empty().insert_all(left).order == FolderIndexView::empty().insert_all(
            right,
        ).order,
        FolderIndexView::empty().insert_all(left).entries.dom()
            == FolderIndexView::empty().insert_all(right).entries.dom(),
    decreases left.len(),
{
    assert(left.len() == paths_of(left).len());
    assert(right.len() == paths_of(right).len());
    if left.len() > 0 {
        assert(paths_of(left.drop_last()) =~= paths_of(left).drop_last());
        assert(paths_of(right.drop_last()) =~= paths_of(right).drop_last());
        lemma_slots_ignore_content(left.drop_last(), right.drop_last());
        assert(left.last().0 == paths_of(left).last());
        assert(right.last().0 == paths_of(right).last());
        let before_left = FolderIndexView::empty().insert_all(left.drop_last());
        let before_right = FolderIndexView::empty().insert_all(right.drop_last());
        assert(before_left.entries.contains_key(left.last().0)
            == before_left.entries.dom().contains(left.last().0));
        assert(before_right.entries.contains_key(right.last().0)
            == before_right.entries.dom().contains(right.last().0));
    }
    assert(FolderIndexView::empty().insert_all(left).entries.dom()
        =~= FolderIndexView::empty().insert_all(right).entries.dom());
}

/// Files whose paths an index knows leave its order as it is.
pub proof fn lemma_known_paths_keep_order(
    index: FolderIndexView,
    files: Seq<(Seq<char>, IndexedFileView)>,
)
    requires
        forall|i: int| 0 <= i < files.len() ==> index.entries.contains_key((#[trigger] files[i]).0),
    ensures
        index.insert_all(files).order == index.order,
    decreases files.len(),
{
    if files.len() > 0 {
        let shorter = files.drop_last();
        assert forall|i: int| 0 <= i < shorter.len() implies index.entries.contains_key(
            (#[trigger] shorter[i]).0,
        ) by {
            assert(shorter[i] == files[i]);
        }
        lemma_known_paths_keep_order(index, shorter);
        assert(index.entries.contains_key(files[files.len() - 1].0));
        lemma_insert_all_entries(index, shorter, files.last().0);
    }
}

/// Indexing a folder again that did not change gives the same index: the
/// files that made an index leave it as it is when they come in once more.
pub proof fn lemma_reindex_changes_nothing(files: Seq<(Seq<char>, IndexedFileView)>)
    ensures
        FolderIndexView::empty().insert_all(files).insert_all(files)
            == FolderIndexView::empty().insert_all(files),
{
    let index = FolderIndexView::empty().insert_all(files);
    let again = index.insert_all(files);
    assert forall|i: int| 0 <= i < files.len() implies index.entries.contains_key(
        (#[trigger] files[i]).0,
    ) by {
        lemma_insert_all_entries(FolderIndexView::empty(), files, files[i].0);
        lemma_last_with_path_some(files, files[i].0);
    }
    lemma_known_paths_keep_order(index, files);
    assert forall|path: Seq<char>| #[trigger]
        again.entries.dom().contains(path) == index.entries.dom().contains(path) by {
        lemma_insert_all_entries(FolderIndexView::empty(), files, path);
        lemma_insert_all_entries(index, files, path);
    }
    assert forall|path: Seq<char>| #[trigger]
        index.entries.dom().contains(path) implies again.entries[path] == index.entries[path] by {
        lemma_insert_all_entries(FolderIndexView::empty(), files, path);
        lemma_insert_all_entries(index, files, path);
    }
    assert(again.entries =~= index.entries);
}

/// Files no two of which have the same path fill the index one slot each,
/// in their order: the index has as many slots as there are files.
pub proof fn lemma_distinct_paths_fill_in_order(files: Seq<(Seq<char>, IndexedFileView)>)
    requires
        paths_of(files).no_duplicates(),
    ensures
        FolderIndexView::empty().insert_all(files).order == paths_of(files),
        FolderIndexView::empty().insert_all(files).order.len() == files.len(),
        FolderIndexView::empty().insert_all(files).entries.len() == files.len(),
    decreases files.len(),
{
    let index = FolderIndexView::empty().insert_all(files);
    let paths = paths_of(files);
    if files.len() == 0 {
        assert(index.order =~= paths);
    } else {
        let shorter = files.drop_last();
        let end = files.len() - 1;
        assert(paths_of(shorter) =~= paths.drop_last());
        assert forall|i: int, j: int|
            0 <= i < paths_of(shorter).len() && 0 <= j < paths_of(shorter).len() && i
                != j implies paths_of(shorter)[i] != paths_of(shorter)[j] by {
            assert(paths[i] != paths[j]);
        }
        lemma_distinct_paths_fill_in_order(shorter);
        let before = FolderIndexView::empty().insert_all(shorter);
        let path = files.last().0;
        assert(paths[end] == path);
        lemma_insert_all_entries(FolderIndexView::empty(), shorter, path);
        lemma_last_with_path_some(shorter, path);
        if before.entries.contains_key(path) {
            let i = choose|i: int| 0 <= i < shorter.len() && (#[trigger] shorter[i]).0 == path;
            assert(paths[i] == path);
            assert(paths[i] != paths[end]);
        }
        assert(index.order =~= paths);
    }
    lemma_one_slot_per_path(files);
}

} // verus!
