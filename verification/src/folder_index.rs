//! The index of a folder: one slot for each file, found by its path.

use crate::image_folder::{ImageData, ImageDataView, ImagePaths, ImagePathsView};
use vstd::hash_map::StringHashMap;
use vstd::prelude::*;

verus! {

/// What the index holds of one file: its identity and, where the file could
/// be decoded, its data.
pub type IndexedFile = (ImagePaths, Option<ImageData>);

/// Mathematical model of an [`IndexedFile`].
pub type IndexedFileView = (ImagePathsView, Option<ImageDataView>);

/// The files of a folder by their paths. The index remembers the order in
/// which the paths came in, and goes through them in that order.
pub struct FolderIndex {
    keys: Vec<String>,
    values: Vec<IndexedFile>,
    positions: StringHashMap<usize>,
}

/// Mathematical model of a [`FolderIndex`]: the paths in the order in which
/// they came in, and what is held for each.
pub struct FolderIndexView {
    pub order: Seq<Seq<char>>,
    pub entries: Map<Seq<char>, IndexedFileView>,
}

impl FolderIndexView {
    /// The index without files.
    pub open spec fn empty() -> FolderIndexView {
        FolderIndexView { order: Seq::empty(), entries: Map::empty() }
    }

    /// The index after `file` came in under `path`. A path that the index
    /// knows keeps its place and gets the new content; a new path goes to
    /// the end.
    pub open spec fn insert(self, path: Seq<char>, file: IndexedFileView) -> FolderIndexView {
        FolderIndexView {
            order: if self.entries.contains_key(path) {
                self.order
            } else {
                self.order.push(path)
            },
            entries: self.entries.insert(path, file),
        }
    }

    /// Each path of the index occurs once in its order, and nothing else
    /// does.
    pub open spec fn wf(self) -> bool {
        &&& forall|i: int, j: int|
            0 <= i < j < self.order.len() ==> self.order[i] != self.order[j]
        &&& forall|path: Seq<char>|
            self.entries.contains_key(path) <==> exists|i: int|
                0 <= i < self.order.len() && self.order[i] == path
    }

    /// The index after all of `files` came in, one after the other.
    pub open spec fn insert_all(self, files: Seq<(Seq<char>, IndexedFileView)>) -> FolderIndexView
        decreases files.len(),
    {
        if files.len() == 0 {
            self
        } else {
            self.insert_all(files.drop_last()).insert(files.last().0, files.last().1)
        }
    }
}

impl View for FolderIndex {
    type V = FolderIndexView;

    closed spec fn view(&self) -> FolderIndexView {
        FolderIndexView {
            order: self.keys.deep_view(),
            entries: Map::new(
                |path: Seq<char>| self.positions@.contains_key(path),
                |path: Seq<char>| self.values@[self.positions@[path] as int].deep_view(),
            ),
        }
    }
}

impl FolderIndex {
    /// The index finds each of its paths at its place.
    pub closed spec fn wf(&self) -> bool {
        &&& self.keys@.len() == self.values@.len()
        &&& forall|i: int|
            0 <= i < self.keys@.len() ==> self.positions@.contains_key(#[trigger] self.keys@[i]@)
                && self.positions@[self.keys@[i]@] == i
        &&& forall|path: Seq<char>| #[trigger]
            self.positions@.contains_key(path) ==> self.positions@[path] < self.keys@.len()
                && self.keys@[self.positions@[path] as int]@ == path
    }

    /// A well-formed index has a well-formed model.
    pub proof fn lemma_view_wf(&self)
        requires
            self.wf(),
        ensures
            self@.wf(),
            self@.entries.dom().finite(),
            self@.entries.len() == self@.order.len(),
    {
        let order = self@.order;
        let entries = self@.entries;
        assert forall|i: int, j: int| 0 <= i < j < order.len() implies order[i] != order[j] by {
            assert(order[i] == self.keys@[i]@);
            assert(order[j] == self.keys@[j]@);
        }
        assert forall|path: Seq<char>| entries.contains_key(path) <==> exists|i: int|
            0 <= i < order.len() && order[i] == path by {
            if entries.contains_key(path) {
                let i = self.positions@[path] as int;
                assert(order[i] == self.keys@[i]@);
            }
            if exists|i: int| 0 <= i < order.len() && order[i] == path {
                let i = choose|i: int| 0 <= i < order.len() && order[i] == path;
                assert(order[i] == self.keys@[i]@);
            }
        }
        lemma_distinct_order_counts(order, entries.dom());
    }

    /// An index without files.
    pub fn new() -> (index: FolderIndex)
        ensures
            index.wf(),
            index@ == FolderIndexView::empty(),
    {
        let index = FolderIndex { keys: Vec::new(), values: Vec::new(), positions: StringHashMap::new() };
        proof {
            assert(index@.order =~= Seq::<Seq<char>>::empty());
            assert(index@.entries =~= Map::<Seq<char>, IndexedFileView>::empty());
        }
        index
    }

    /// The number of files in the index.
    pub fn len(&self) -> (len: usize)
        requires
            self.wf(),
        ensures
            len == self@.order.len(),
            len == self@.entries.len(),
    {
        proof {
            self.lemma_view_wf();
        }
        self.keys.len()
    }

    /// Tells whether the index holds a file under `path`.
    pub fn contains_key(&self, path: &str) -> (held: bool)
        requires
            self.wf(),
        ensures
            held == self@.entries.contains_key(path@),
    {
        self.positions.contains_key(path)
    }

    /// The file held under `path`.
    pub fn get(&self, path: &str) -> (file: Option<&IndexedFile>)
        requires
            self.wf(),
        ensures
            match file {
                Some(file) => self@.entries.contains_key(path@) && file.deep_view()
                    == self@.entries[path@],
                None => !self@.entries.contains_key(path@),
            },
    {
        match self.positions.get(path) {
            Some(at) => Some(&self.values[*at]),
            None => None,
        }
    }

    /// The place of `path` in the order of the index.
    pub fn position(&self, path: &str) -> (place: Option<usize>)
        requires
            self.wf(),
        ensures
            match place {
                Some(at) => at < self@.order.len() && self@.order[at as int] == path@,
                None => !self@.entries.contains_key(path@),
            },
    {
        match self.positions.get(path) {
            Some(at) => {
                proof {
                    assert(self@.order[*at as int] == self.keys@[*at as int]@);
                }
                Some(*at)
            },
            None => None,
        }
    }

    /// The path at place `at` of the order of the index.
    pub fn key_at(&self, at: usize) -> (path: &String)
        requires
            self.wf(),
            at < self@.order.len(),
        ensures
            path@ == self@.order[at as int],
    {
        &self.keys[at]
    }

    /// The file whose path is at place `at` of the order of the index.
    pub fn value_at(&self, at: usize) -> (file: &IndexedFile)
        requires
            self.wf(),
            at < self@.order.len(),
        ensures
            self@.entries.contains_key(self@.order[at as int]),
            file.deep_view() == self@.entries[self@.order[at as int]],
    {
        proof {
            assert(self@.order[at as int] == self.keys@[at as int]@);
        }
        &self.values[at]
    }

    /// Puts `file` into the index under `path`. A path that the index knows
    /// keeps its place and gets the new content; a new path goes to the end.
    pub fn insert(&mut self, path: String, file: IndexedFile)
        requires
            old(self).wf(),
        ensures
            final(self).wf(),
            final(self)@ == old(self)@.insert(path@, file.deep_view()),
    {
        let known = match self.positions.get(path.as_str()) {
            Some(at) => Some(*at),
            None => None,
        };
        match known {
            Some(at) => {
                self.values.set(at, file);
                proof {
                    assert(final(self)@.order =~= old(self)@.order);
                    assert(final(self)@.entries =~= old(self)@.entries.insert(
                        path@,
                        file.deep_view(),
                    ));
                }
            },
            None => {
                let at = self.keys.len();
                self.positions.insert(path.clone(), at);
                self.keys.push(path);
                self.values.push(file);
                proof {
                    assert(final(self)@.order =~= old(self)@.order.push(path@));
                    assert(final(self)@.entries =~= old(self)@.entries.insert(
                        path@,
                        file.deep_view(),
                    ));
                }
            },
        }
    }
}

/// Merges what was loaded of each file into one index. `loaded` holds, for
/// each file, its path and what reading it gave; workers may have produced
/// the items in any manner, the index is made of them in the order of
/// `loaded`. Every path gets one slot, whatever reading the file gave.
pub fn load_images_in_parallel(loaded: Vec<(String, IndexedFile)>) -> (index: FolderIndex)
    ensures
        index.wf(),
        index@ == FolderIndexView::empty().insert_all(loaded.deep_view()),
{
    let ghost all = loaded.deep_view();
    let ghost raw = loaded@;
    let mut index = FolderIndex::new();
    proof {
        assert(all.take(0) =~= Seq::<(Seq<char>, IndexedFileView)>::empty());
    }
    for item in items: loaded
        invariant
            index.wf(),
            all == raw.map_values(|item: (String, IndexedFile)| item.deep_view()),
            items.seq() == raw,
            index@ == FolderIndexView::empty().insert_all(all.take(items.index() as int)),
    {
        proof {
            let taken = items.index() as int;
            assert(all.take(taken + 1).drop_last() =~= all.take(taken));
            assert(all.take(taken + 1).last() == raw[taken].deep_view());
        }
        index.insert(item.0, item.1);
    }
    proof {
        assert(all.take(raw.len() as int) =~= all);
    }
    index
}

/// A set that is listed without repetition has as many members as the list
/// is long.
pub proof fn lemma_distinct_order_counts(order: Seq<Seq<char>>, paths: Set<Seq<char>>)
    requires
        forall|i: int, j: int| 0 <= i < j < order.len() ==> order[i] != order[j],
        forall|path: Seq<char>|
            paths.contains(path) <==> exists|i: int| 0 <= i < order.len() && order[i] == path,
    ensures
        paths.finite(),
        paths.len() == order.len(),
    decreases order.len(),
{
    if order.len() == 0 {
        assert(paths =~= Set::<Seq<char>>::empty());
    } else {
        let last = order.last();
        let shorter = order.drop_last();
        let fewer = paths.remove(last);
        assert forall|path: Seq<char>| fewer.contains(path) <==> exists|i: int|
            0 <= i < shorter.len() && shorter[i] == path by {
            if fewer.contains(path) {
                let i = choose|i: int| 0 <= i < order.len() && order[i] == path;
                assert(shorter[i] == path);
            }
            if exists|i: int| 0 <= i < shorter.len() && shorter[i] == path {
                let i = choose|i: int| 0 <= i < shorter.len() && shorter[i] == path;
                assert(order[i] == path);
                assert(order[i] != order[order.len() - 1]);
            }
        }
        lemma_distinct_order_counts(shorter, fewer);
        assert(order[order.len() - 1] == last);
        assert(paths.contains(last));
        assert(paths =~= fewer.insert(last));
    }
}

} // verus!
