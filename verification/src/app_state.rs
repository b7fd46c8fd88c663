//! What the browser holds of the folder or catalogue that it shows.

use crate::folder_index::{FolderIndex, FolderIndexView, IndexedFile, IndexedFileView};
use crate::image_data::{duplicate_text, ImageMetadataFields, ImageMetadataFieldsView};
use crate::image_folder::{make_image_data_from_exif, metadata_for, ImagePathsView};
use crate::exif::{ExifEntry, ExifEntryView};
use crate::xmp::{rating_of, XmpProperty, XmpPropertyView};
use crate::text::{parse_u64, parse_u64_spec};
use std::collections::HashMap;
use std::path::Path;
use vstd::hash_map::StringHashMap;
use vstd::prelude::*;
use vstd::string::StringSliceAdditionalSpecFns;
use vstd::utf8::{decode_utf8, encode_utf8, encode_utf8_decode_utf8, is_char_boundary};

verus! {

broadcast use vstd::std_specs::hash::group_hash_axioms;

/// Where the parts of a catalogue lie.
#[derive(Clone, Debug, PartialEq, Eq)]
pub struct LightroomConfDirs {
    pub root: String,
    pub cat_path: String,
    pub metadata_db_path: String,
    pub preview_db_path: String,
    pub preview_root: String,
}

/// Mathematical model of a [`LightroomConfDirs`].
pub struct LightroomConfDirsView {
    pub root: Seq<char>,
    pub cat_path: Seq<char>,
    pub metadata_db_path: Seq<char>,
    pub preview_db_path: Seq<char>,
    pub preview_root: Seq<char>,
}

impl View for LightroomConfDirs {
    type V = LightroomConfDirsView;

    open spec fn view(&self) -> LightroomConfDirsView {
        LightroomConfDirsView {
            root: self.root@,
            cat_path: self.cat_path@,
            metadata_db_path: self.metadata_db_path@,
            preview_db_path: self.preview_db_path@,
            preview_root: self.preview_root@,
        }
    }
}

impl DeepView for LightroomConfDirs {
    type V = LightroomConfDirsView;

    open spec fn deep_view(&self) -> LightroomConfDirsView {
        self@
    }
}

impl LightroomConfDirs {
    /// A copy of the places.
    pub fn duplicate(&self) -> (copy: LightroomConfDirs)
        ensures
            copy@ == self@,
    {
        LightroomConfDirs {
            root: self.root.clone(),
            cat_path: self.cat_path.clone(),
            metadata_db_path: self.metadata_db_path.clone(),
            preview_db_path: self.preview_db_path.clone(),
            preview_root: self.preview_root.clone(),
        }
    }
}

/// The part of the state that is shown as it is: the catalogue or the
/// folder that is open, and the number of its images.
#[derive(Clone, Debug, PartialEq, Eq)]
pub struct SharedAppState {
    pub conf_dirs: Option<LightroomConfDirs>,
    pub root_dir: Option<String>,
    pub total_images: Option<usize>,
}

/// Mathematical model of a [`SharedAppState`].
pub struct SharedAppStateView {
    pub conf_dirs: Option<LightroomConfDirsView>,
    pub root_dir: Option<Seq<char>>,
    pub total_images: Option<usize>,
}

impl View for SharedAppState {
    type V = SharedAppStateView;

    open spec fn view(&self) -> SharedAppStateView {
        SharedAppStateView {
            conf_dirs: self.conf_dirs.deep_view(),
            root_dir: self.root_dir.deep_view(),
            total_images: self.total_images,
        }
    }
}

impl SharedAppState {
    /// A copy of the shared state.
    pub fn duplicate(&self) -> (copy: SharedAppState)
        ensures
            copy@ == self@,
    {
        SharedAppState {
            conf_dirs: match &self.conf_dirs {
                Some(dirs) => Some(dirs.duplicate()),
                None => None,
            },
            root_dir: duplicate_text(&self.root_dir),
            total_images: self.total_images,
        }
    }
}

/// What a catalogue knows of the preview of one image.
#[derive(Clone, Debug, PartialEq, Eq)]
pub struct PreviewData {
    pub image_id: u64,
    pub uuid: String,
    pub digest: String,
    pub orientation: Option<String>,
}

/// Mathematical model of a [`PreviewData`].
pub struct PreviewDataView {
    pub image_id: u64,
    pub uuid: Seq<char>,
    pub digest: Seq<char>,
    pub orientation: Option<Seq<char>>,
}

impl View for PreviewData {
    type V = PreviewDataView;

    open spec fn view(&self) -> PreviewDataView {
        PreviewDataView {
            image_id: self.image_id,
            uuid: self.uuid@,
            digest: self.digest@,
            orientation: self.orientation.deep_view(),
        }
    }
}

impl DeepView for PreviewData {
    type V = PreviewDataView;

    open spec fn deep_view(&self) -> PreviewDataView {
        self@
    }
}

/// The state of the browser. With a folder open it holds the record of each
/// file and the place of each path among the records; with a catalogue
/// open, the previews by the identifier of their image.
pub struct AppState {
    pub shared: SharedAppState,
    pub image_db_from_files: Vec<ImageMetadataFields>,
    pub image_db_to_index: StringHashMap<usize>,
    pub image_id_to_image: Option<HashMap<u64, PreviewData>>,
}

/// Mathematical model of an [`AppState`].
pub struct AppStateView {
    pub shared: SharedAppStateView,
    pub image_db_from_files: Seq<ImageMetadataFieldsView>,
    pub image_db_to_index: Map<Seq<char>, usize>,
    pub image_id_to_image: Option<Map<u64, PreviewDataView>>,
}

/// Mathematical model of the previews of a catalogue.
pub open spec fn previews_view(previews: Option<HashMap<u64, PreviewData>>) -> Option<
    Map<u64, PreviewDataView>,
> {
    match previews {
        Some(previews) => Some(
            Map::new(|id: u64| previews@.contains_key(id), |id: u64| previews@[id]@),
        ),
        None => None,
    }
}

impl View for AppState {
    type V = AppStateView;

    open spec fn view(&self) -> AppStateView {
        AppStateView {
            shared: self.shared@,
            image_db_from_files: self.image_db_from_files.deep_view(),
            image_db_to_index: self.image_db_to_index@,
            image_id_to_image: previews_view(self.image_id_to_image),
        }
    }
}

impl AppStateView {
    /// The state with nothing open.
    pub open spec fn empty() -> AppStateView {
        AppStateView {
            shared: SharedAppStateView { conf_dirs: None, root_dir: None, total_images: None },
            image_db_from_files: Seq::empty(),
            image_db_to_index: Map::empty(),
            image_id_to_image: None,
        }
    }

    /// The state that shows the catalogue whose parts lie at `conf_dirs` and
    /// which knows the previews `previews`.
    pub open spec fn for_catalog(
        conf_dirs: LightroomConfDirsView,
        previews: Map<u64, PreviewDataView>,
    ) -> AppStateView {
        AppStateView {
            shared: SharedAppStateView {
                conf_dirs: Some(conf_dirs),
                root_dir: None,
                total_images: None,
            },
            image_db_from_files: Seq::empty(),
            image_db_to_index: Map::empty(),
            image_id_to_image: Some(previews),
        }
    }

    /// Each path has its place among the records, and only paths have.
    pub open spec fn places_fit(self) -> bool {
        forall|path: Seq<char>| #[trigger]
            self.image_db_to_index.contains_key(path) ==> self.image_db_to_index[path]
                < self.image_db_from_files.len()
    }
}

/// The tag set of an indexed file: empty where the file could not be
/// decoded.
pub open spec fn tags_of(file: IndexedFileView) -> Seq<ExifEntryView> {
    match file.1 {
        Some(data) => data.tags,
        None => Seq::empty(),
    }
}

/// The record of an indexed file whose XMP properties are `xmp`.
pub open spec fn record_of(
    file: IndexedFileView,
    xmp: Option<Seq<XmpPropertyView>>,
) -> ImageMetadataFieldsView {
    metadata_for(Some(file.0.folder), file.0.filepath, tags_of(file), rating_of(xmp))
}

/// The XMP properties of the file at place `at`, where `xmp` holds the
/// properties of the files by their places. A file beyond the end of `xmp`
/// has none.
pub open spec fn xmp_at(xmp: Seq<Option<Seq<XmpPropertyView>>>, at: int) -> Option<
    Seq<XmpPropertyView>,
> {
    if 0 <= at < xmp.len() {
        xmp[at]
    } else {
        None
    }
}

/// The state that shows the folder `folder` with the index `index`: one
/// record for each file, in the order of the index, and for each path its
/// place in that order.
pub open spec fn folder_state(
    folder: Seq<char>,
    index: FolderIndexView,
    xmp: Seq<Option<Seq<XmpPropertyView>>>,
) -> AppStateView {
    AppStateView {
        shared: SharedAppStateView {
            conf_dirs: None,
            root_dir: Some(folder),
            total_images: Some(index.order.len() as usize),
        },
        image_db_from_files: Seq::new(
            index.order.len(),
            |at: int| record_of(index.entries[index.order[at]], xmp_at(xmp, at)),
        ),
        image_db_to_index: Map::new(
            |path: Seq<char>| index.entries.contains_key(path),
            |path: Seq<char>| index.order.index_of(path) as usize,
        ),
        image_id_to_image: None,
    }
}

/// A file that could not be decoded and that holds no XMP packet has a
/// record all the same: its folder and its path are there, and every other
/// field is absent.
pub proof fn lemma_undecoded_record(paths: ImagePathsView)
    ensures
        record_of((paths, None), None).folder == Some(paths.folder),
        record_of((paths, None), None).filename == paths.filepath,
        record_of((paths, None), None).only_names(),
{
}

/// The record of a file names the file by its path, whatever its tag set
/// and its XMP properties hold.
pub proof fn lemma_record_names_file(file: IndexedFileView, xmp: Option<Seq<XmpPropertyView>>)
    ensures
        record_of(file, xmp).filename == file.0.filepath,
        record_of(file, xmp).folder == Some(file.0.folder),
{
}

/// Builds the record of an indexed file. A file that could not be decoded
/// gets the record of an empty tag set.
pub fn maybe_image_data(tup: &IndexedFile, xmp: &Option<Vec<XmpProperty>>) -> (record:
    ImageMetadataFields)
    ensures
        record@ == record_of(tup.deep_view(), xmp.deep_view()),
{
    match &tup.1 {
        Some(data) => make_image_data_from_exif(
            Some(tup.0.folder.clone()),
            tup.0.filepath.clone(),
            &data.tags,
            xmp,
        ),
        None => {
            let empty_tags: Vec<ExifEntry> = Vec::new();
            proof {
                assert(empty_tags.deep_view() =~= Seq::<ExifEntryView>::empty());
            }
            make_image_data_from_exif(
                Some(tup.0.folder.clone()),
                tup.0.filepath.clone(),
                &empty_tags,
                xmp,
            )
        },
    }
}

impl AppState {
    /// The state with nothing open.
    pub fn empty() -> (state: AppState)
        ensures
            state@ == AppStateView::empty(),
    {
        let state = AppState {
            shared: SharedAppState { conf_dirs: None, root_dir: None, total_images: None },
            image_db_from_files: Vec::new(),
            image_db_to_index: StringHashMap::new(),
            image_id_to_image: None,
        };
        proof {
            assert(state@.image_db_from_files =~= Seq::<ImageMetadataFieldsView>::empty());
        }
        state
    }

    /// The state that shows the catalogue whose parts lie at `conf_dirs`.
    /// `image_id_to_image` holds the previews that the catalogue knows, by
    /// the identifier of their image.
    pub fn for_catalog(conf_dirs: &LightroomConfDirs, image_id_to_image: HashMap<u64, PreviewData>) -> (state:
        AppState)
        ensures
            state@ == AppStateView::for_catalog(
                conf_dirs@,
                previews_view(Some(image_id_to_image))->0,
            ),
    {
        let state = AppState {
            shared: SharedAppState {
                conf_dirs: Some(conf_dirs.duplicate()),
                root_dir: None,
                total_images: None,
            },
            image_db_from_files: Vec::new(),
            image_db_to_index: StringHashMap::new(),
            image_id_to_image: Some(image_id_to_image),
        };
        proof {
            assert(state@.image_db_from_files =~= Seq::<ImageMetadataFieldsView>::empty());
        }
        state
    }
}

/// Makes the state that shows `folder` out of what indexing it gave.
/// `image_index` is the index of the folder, or nothing where the folder
/// could not be indexed: the state then has nothing open. `xmp` holds the
/// XMP properties of the files in the order of the index.
pub fn get_app_state_from_image_folder(
    folder: &String,
    _additive: bool,
    image_index: Option<FolderIndex>,
    xmp: &Vec<Option<Vec<XmpProperty>>>,
) -> (state: AppState)
    requires
        image_index matches Some(index) ==> index.wf(),
    ensures
        state@ == match image_index {
            Some(index) => folder_state(folder@, index@, xmp.deep_view()),
            None => AppStateView::empty(),
        },
        state@.places_fit(),
{
    match image_index {
        None => AppState::empty(),
        Some(image_db) => {
            let ghost index = image_db@;
            let ghost sidecars = xmp.deep_view();
            let total = image_db.len();
            let mut image_db_key_to_index: StringHashMap<usize> = StringHashMap::new();
            let mut image_db_values: Vec<ImageMetadataFields> = Vec::new();
            let none: Option<Vec<XmpProperty>> = None;
            proof {
                image_db.lemma_view_wf();
            }
            let mut i: usize = 0;
            while i < total
                invariant
                    image_db.wf(),
                    index == image_db@,
                    index.wf(),
                    sidecars == xmp.deep_view(),
                    none is None,
                    total == index.order.len(),
                    i <= total,
                    image_db_values@.len() == i,
                    forall|at: int|
                        0 <= at < i ==> (#[trigger] image_db_values@[at])@ == record_of(
                            index.entries[index.order[at]],
                            xmp_at(sidecars, at),
                        ),
                    forall|path: Seq<char>|
                        image_db_key_to_index@.contains_key(path) <==> exists|at: int|
                            0 <= at < i && index.order[at] == path,
                    forall|at: int|
                        0 <= at < i ==> image_db_key_to_index@[#[trigger] index.order[at]] == at,
                decreases total - i,
            {
                let key = image_db.key_at(i);
                let file = image_db.value_at(i);
                let sidecar = if i < xmp.len() {
                    &xmp[i]
                } else {
                    &none
                };
                proof {
                    assert(sidecar.deep_view() == xmp_at(sidecars, i as int));
                }
                let record = maybe_image_data(file, sidecar);
                let ghost before = image_db_key_to_index@;
                image_db_key_to_index.insert(key.clone(), i);
                image_db_values.push(record);
                proof {
                    assert forall|path: Seq<char>|
                        image_db_key_to_index@.contains_key(path) <==> exists|at: int|
                            0 <= at < i + 1 && index.order[at] == path by {
                        if path == key@ {
                            assert(index.order[i as int] == path);
                        } else if before.contains_key(path) {
                            let at = choose|at: int| 0 <= at < i && index.order[at] == path;
                            assert(0 <= at < i + 1 && index.order[at] == path);
                        }
                    }
                    assert forall|at: int| 0 <= at < i + 1 implies image_db_key_to_index@[#[trigger] index.order[at]]
                        == at by {
                        if at < i {
                            assert(index.order[at] != index.order[i as int]);
                        }
                    }
                }
                i += 1;
            }
            let state = AppState {
                shared: SharedAppState {
                    conf_dirs: None,
                    root_dir: Some(folder.clone()),
                    total_images: Some(total),
                },
                image_db_from_files: image_db_values,
                image_db_to_index: image_db_key_to_index,
                image_id_to_image: None,
            };
            proof {
                let goal = folder_state(folder@, index, sidecars);
                assert(state@.image_db_from_files =~= goal.image_db_from_files);
                assert forall|path: Seq<char>| #[trigger]
                    goal.image_db_to_index.contains_key(path) implies state@.image_db_to_index[path]
                    == goal.image_db_to_index[path] by {
                    let at = choose|at: int| 0 <= at < index.order.len() && index.order[at] == path;
                    assert(index.order.contains(path));
                    index.order.index_of_first_ensures(path);
                    let first = index.order.index_of(path);
                    assert(index.order[first] == path);
                    assert(state@.image_db_to_index[index.order[first]] == first);
                }
                assert(state@.image_db_to_index =~= goal.image_db_to_index);
            }
            state
        },
    }
}

/// The name of the container that holds the previews of an image: its
/// identifier in the catalogue, a hyphen, its digest, and the extension.
pub open spec fn preview_file_name_of(image: PreviewDataView) -> Seq<char> {
    image.uuid + "-"@ + image.digest + ".lrprev"@
}

/// The identifier `uuid`, written in UTF-8, has a first character of one
/// byte and a first part of four bytes that ends with a character.
pub open spec fn can_shard(uuid: Seq<char>) -> bool {
    is_char_boundary(encode_utf8(uuid), 1) && is_char_boundary(encode_utf8(uuid), 4)
}

/// The name of the container that holds the previews of `image`.
pub fn preview_file_name(image: &PreviewData) -> (name: String)
    ensures
        name@ == preview_file_name_of(image@),
{
    let mut name = image.uuid.clone();
    name.append("-");
    name.append(image.digest.as_str());
    name.append(".lrprev");
    name
}

/// The text that the first `width` bytes of `uuid` write, where `uuid` is
/// written in UTF-8 and these bytes end with a character.
pub open spec fn shard_of(uuid: Seq<char>, width: int) -> Seq<char> {
    decode_utf8(encode_utf8(uuid).subrange(0, width))
}

/// The directories under which a catalogue files the previews of the image
/// with identifier `uuid`: the first byte of the identifier, then its first
/// four bytes.
pub fn preview_shards(uuid: &str) -> (shards: (&str, &str))
    requires
        can_shard(uuid@),
    ensures
        shards.0.spec_bytes() == uuid.spec_bytes().subrange(0, 1),
        shards.1.spec_bytes() == uuid.spec_bytes().subrange(0, 4),
        shards.0@ == shard_of(uuid@, 1),
        shards.1@ == shard_of(uuid@, 4),
{
    let (first, _) = uuid.split_at(1);
    let (four, _) = uuid.split_at(4);
    proof {
        encode_utf8_decode_utf8(first@);
        encode_utf8_decode_utf8(four@);
    }
    (first, four)
}

/// Tells whether the previews of the image with identifier `uuid` can be
/// filed.
pub fn has_preview_shards(uuid: &str) -> (fit: bool)
    ensures
        fit == can_shard(uuid@),
{
    uuid.is_char_boundary(1) && uuid.is_char_boundary(4)
}

/// The path that `Path::join` of the standard library gives when it
/// adjoins the path `component` to the path `base`, both written as text.
/// The separator, and what counts as an absolute component, are those of
/// the platform that the crate is built for.
pub uninterp spec fn path_joined(base: Seq<char>, component: Seq<char>) -> Seq<char>;

/// Adjoins `component` to the path `base` with `Path::join` of the
/// standard library. Assumed, not proved: the path that comes back depends
/// on the two paths alone. What it is, is not said here.
#[verifier::external_body]
fn join_path(base: &str, component: &str) -> (joined: String)
    ensures
        joined@ == path_joined(base@, component@),
{
    Path::new(base).join(component).to_string_lossy().into_owned()
}

/// The path of the container that holds the previews of `image`, in a
/// catalogue that keeps its previews under `preview_root`: the root, then
/// the directory named by the first byte of the identifier of the image,
/// then the directory named by its first four bytes, then the name of the
/// container, each adjoined to what comes before.
pub open spec fn preview_path_of(preview_root: Seq<char>, image: PreviewDataView) -> Seq<char> {
    path_joined(
        path_joined(
            path_joined(preview_root, shard_of(image.uuid, 1)),
            shard_of(image.uuid, 4),
        ),
        preview_file_name_of(image),
    )
}

/// The path of the container that holds the previews of `image`, in a
/// catalogue that keeps its previews under `preview_root`: the root, the
/// two directories of [`preview_shards`] and the name of
/// [`preview_file_name`], adjoined in this order.
pub fn format_preview_filepath(preview_root: &str, image: &PreviewData) -> (path: String)
    requires
        can_shard(image.uuid@),
    ensures
        path@ == preview_path_of(preview_root@, image@),
{
    let (first, four) = preview_shards(image.uuid.as_str());
    let name = preview_file_name(image);
    let below_first = join_path(preview_root, first);
    let below_four = join_path(below_first.as_str(), four);
    join_path(below_four.as_str(), name.as_str())
}

/// The preview that the state holds for the image that `image_id` names.
pub open spec fn preview_for(state: AppStateView, image_id: Seq<char>) -> Option<PreviewDataView> {
    match (parse_u64_spec(image_id), state.image_id_to_image, state.shared.conf_dirs) {
        (Some(id), Some(previews), Some(_)) => if previews.contains_key(id) {
            Some(previews[id])
        } else {
            None
        },
        _ => None,
    }
}

/// The path of the container that holds the previews of the image that
/// `image_id` names, in the catalogue that the state has open: that of the
/// preview which the catalogue knows for the image, below the root of its
/// previews. There is none where the state knows no such preview, and none
/// where the identifier of the preview cannot be cut into the directories
/// that file it.
pub open spec fn preview_path_for(state: AppStateView, image_id: Seq<char>) -> Option<Seq<char>> {
    match preview_for(state, image_id) {
        Some(image) => if can_shard(image.uuid) {
            Some(preview_path_of(state.shared.conf_dirs->0.preview_root, image))
        } else {
            None
        },
        None => None,
    }
}

impl AppState {
    /// The number of images that the open folder holds.
    pub fn get_total_available_images(&self) -> (total: usize)
        ensures
            total == self@.image_db_to_index.len(),
    {
        self.image_db_to_index.len()
    }

    /// The records of the open folder from place `offset` on, at most
    /// `limit` of them. An offset behind the last record gives none.
    pub fn get_available_images(&self, offset: usize, limit: usize) -> (images: Vec<
        ImageMetadataFields,
    >)
        ensures
            images.deep_view() == available_images(self@.image_db_from_files, offset, limit),
    {
        let total = self.image_db_from_files.len();
        let mut images: Vec<ImageMetadataFields> = Vec::new();
        if offset > total {
            proof {
                assert(images.deep_view() =~= Seq::<ImageMetadataFieldsView>::empty());
            }
            return images;
        }
        let end_point = if limit > total - offset {
            total
        } else {
            offset + limit
        };
        let ghost records = self@.image_db_from_files;
        let mut at = offset;
        while at < end_point
            invariant
                offset <= at <= end_point <= total,
                total == self.image_db_from_files@.len(),
                records == self.image_db_from_files.deep_view(),
                images@.len() == at - offset,
                forall|k: int| 0 <= k < at - offset ==> (#[trigger] images@[k])@ == records[offset + k],
            decreases end_point - at,
        {
            proof {
                assert(records[at as int] == self.image_db_from_files@[at as int]@);
            }
            images.push(self.image_db_from_files[at].duplicate());
            at += 1;
        }
        proof {
            assert(images.deep_view() =~= records.subrange(offset as int, end_point as int));
        }
        images
    }

    /// The path of the container that holds the previews of the image that
    /// `image_id` names in the open catalogue. There is none where no
    /// catalogue is open, where `image_id` is no unsigned 64-bit integer,
    /// where the catalogue knows no preview of the image, and where the
    /// identifier of the preview is too short to file it.
    pub fn get_preview_path_for_image_id(&self, image_id: &str) -> (path: Option<String>)
        ensures
            path.deep_view() == preview_path_for(self@, image_id@),
    {
        let id = match parse_u64(image_id) {
            Some(id) => id,
            None => {
                return None;
            },
        };
        match (&self.image_id_to_image, &self.shared.conf_dirs) {
            (Some(previews), Some(conf_dirs)) => match previews.get(&id) {
                Some(image) => if has_preview_shards(image.uuid.as_str()) {
                    Some(format_preview_filepath(conf_dirs.preview_root.as_str(), image))
                } else {
                    None
                },
                None => None,
            },
            _ => None,
        }
    }
}

/// The records from place `offset` on, at most `limit` of them.
pub open spec fn available_images(
    records: Seq<ImageMetadataFieldsView>,
    offset: usize,
    limit: usize,
) -> Seq<ImageMetadataFieldsView> {
    if offset > records.len() {
        Seq::empty()
    } else if offset + limit > records.len() {
        records.subrange(offset as int, records.len() as int)
    } else {
        records.subrange(offset as int, offset + limit)
    }
}

} // verus!
