//! Decoder of the multi-resolution preview container.
//!
//! A container is a byte string in which the ASCII markers `level_1`,
//! `level_2`, ... each announce one embedded image.

use image::codecs::jpeg::JpegDecoder;
use image::DynamicImage;
use std::io::Cursor;
use vstd::prelude::*;
use vstd::slice::{slice_subrange, slice_to_vec};

verus! {

/// `term` occurs in `container` at offset `i`.
pub open spec fn occurs_at(container: Seq<u8>, term: Seq<u8>, i: int) -> bool {
    &&& 0 <= i
    &&& i + term.len() <= container.len()
    &&& container.subrange(i, i + term.len()) == term
}

/// `i` is the offset of the first occurrence of `term` in `container`.
pub open spec fn is_first_occurrence(container: Seq<u8>, term: Seq<u8>, i: int) -> bool {
    &&& occurs_at(container, term, i)
    &&& forall|j: int| 0 <= j < i ==> !occurs_at(container, term, j)
}

/// `term` occurs nowhere in `container`.
pub open spec fn occurs_nowhere(container: Seq<u8>, term: Seq<u8>) -> bool {
    forall|j: int| !occurs_at(container, term, j)
}

/// Tells whether `term` occurs in `container` at offset `at`.
fn matches_at(container: &[u8], term: &[u8], at: usize) -> (hit: bool)
    requires
        at + term@.len() <= container@.len(),
    ensures
        hit == occurs_at(container@, term@, at as int),
{
    let size: usize = container.len();
    let mut k: usize = 0;
    while k < term.len()
        invariant
            k <= term@.len(),
            at + term@.len() <= container@.len() == size,
            forall|t: int| 0 <= t < k ==> container@[at + t] == term@[t],
        decreases term@.len() - k,
    {
        if container[at + k] != term[k] {
            proof {
                let window = container@.subrange(at as int, at + term@.len());
                assert(window[k as int] == container@[at + k]);
            }
            return false;
        }
        k += 1;
    }
    proof {
        assert(container@.subrange(at as int, at + term@.len()) =~= term@);
    }
    true
}

/// Finds the first occurrence of `search_term` in `container`.
///
/// Returns the offset of the first window of `container` that equals
/// `search_term`, or `None` when no window does.
pub fn find_subsequence(container: &[u8], search_term: &[u8]) -> (found: Option<usize>)
    requires
        search_term@.len() > 0,
    ensures
        match found {
            Some(i) => is_first_occurrence(container@, search_term@, i as int),
            None => occurs_nowhere(container@, search_term@),
        },
{
    if search_term.len() > container.len() {
        return None;
    }
    let last: usize = container.len() - search_term.len();
    let mut i: usize = 0;
    while i <= last
        invariant
            i <= last + 1,
            search_term@.len() > 0,
            last + search_term@.len() == container@.len() <= usize::MAX,
            forall|j: int| 0 <= j < i ==> !occurs_at(container@, search_term@, j),
        decreases last + 1 - i,
    {
        if matches_at(container, search_term, i) {
            return Some(i);
        }
        i += 1;
    }
    None
}

/// The offset of the first occurrence of `term` in `container`.
pub open spec fn first_occurrence(container: Seq<u8>, term: Seq<u8>) -> Option<int> {
    if exists|i: int| is_first_occurrence(container, term, i) {
        Some(choose|i: int| is_first_occurrence(container, term, i))
    } else {
        None
    }
}

/// A first occurrence is the first occurrence.
pub proof fn lemma_first_occurrence_is(container: Seq<u8>, term: Seq<u8>, i: int)
    requires
        is_first_occurrence(container, term, i),
    ensures
        first_occurrence(container, term) == Some(i),
{
    let chosen = choose|j: int| is_first_occurrence(container, term, j);
    if chosen < i {
        assert(!occurs_at(container, term, chosen));
    } else if i < chosen {
        assert(!occurs_at(container, term, i));
    }
}

/// Where nothing occurs there is no first occurrence.
pub proof fn lemma_first_occurrence_none(container: Seq<u8>, term: Seq<u8>)
    requires
        occurs_nowhere(container, term),
    ensures
        first_occurrence(container, term) is None,
{
}

/// The number of levels that a container can hold.
pub const MAX_LEVELS: u8 = 9;

/// Length of a level marker in bytes.
pub const MARKER_LEN: usize = 7;

/// The marker of level `level`: the ASCII text `level_` and the digit of
/// the level.
pub open spec fn level_marker(level: int) -> Seq<u8> {
    seq![108u8, 101u8, 118u8, 101u8, 108u8, 95u8, (48 + level) as u8]
}

/// Where one level lies in a container.
#[derive(Clone, Copy, Debug, PartialEq, Eq, Structural)]
pub struct Level {
    /// Offset of the first byte of the marker.
    pub marker_start: usize,
    /// Offset of the first byte of the embedded image: one byte behind the
    /// end of the marker, or the end of the container where it ends with
    /// the marker.
    pub image_start: usize,
}

/// Mathematical model of a [`Level`].
pub struct LevelView {
    pub marker_start: int,
    pub image_start: int,
}

impl View for Level {
    type V = LevelView;

    open spec fn view(&self) -> LevelView {
        LevelView { marker_start: self.marker_start as int, image_start: self.image_start as int }
    }
}

impl DeepView for Level {
    type V = LevelView;

    open spec fn deep_view(&self) -> LevelView {
        self@
    }
}

/// Where the image of a level begins whose marker begins at
/// `marker_start`: behind the marker and the one byte that follows it.
/// What that byte is for is not known; it is skipped whatever it holds.
pub open spec fn image_start_of(data: Seq<u8>, marker_start: int) -> int {
    if marker_start + MARKER_LEN + 1 <= data.len() {
        marker_start + MARKER_LEN + 1
    } else {
        data.len() as int
    }
}

/// The levels of `data` from level `level` on, the search for the marker
/// of `level` beginning at offset `from`. Each marker is searched for
/// behind the image start of the level before; the first level whose marker
/// is not found ends the list, and so does the last level that a container
/// can hold.
pub open spec fn locate_levels_from(data: Seq<u8>, level: int, from: int) -> Seq<LevelView>
    decreases MAX_LEVELS + 1 - level,
{
    if level < 1 || level > MAX_LEVELS || from < 0 || from > data.len() {
        Seq::empty()
    } else {
        match first_occurrence(data.subrange(from, data.len() as int), level_marker(level)) {
            None => Seq::empty(),
            Some(found) => {
                let marker_start = from + found;
                let image_start = image_start_of(data, marker_start);
                seq![LevelView { marker_start, image_start }] + locate_levels_from(
                    data,
                    level + 1,
                    image_start,
                )
            },
        }
    }
}

/// The levels of the container `data`, from level 1 on.
pub open spec fn levels_of(data: Seq<u8>) -> Seq<LevelView> {
    locate_levels_from(data, 1, 0)
}

/// Where the bytes of level `at` of `levels` end: where the marker of the
/// next level begins, or at the end of the container for the last level.
pub open spec fn image_end_of(data: Seq<u8>, levels: Seq<LevelView>, at: int) -> int {
    if at + 1 < levels.len() {
        levels[at + 1].marker_start
    } else {
        data.len() as int
    }
}

/// The bytes of the embedded images of the levels `levels` of `data`.
pub open spec fn cut_segments(data: Seq<u8>, levels: Seq<LevelView>) -> Seq<Seq<u8>> {
    Seq::new(
        levels.len(),
        |at: int| data.subrange(levels[at].image_start, image_end_of(data, levels, at)),
    )
}

/// The bytes of the embedded images of the container `data`, lowest level
/// first.
pub open spec fn segments_of(data: Seq<u8>) -> Seq<Seq<u8>> {
    cut_segments(data, levels_of(data))
}

/// The levels `levels` lie in `data` one behind the other.
pub open spec fn levels_in_order(data: Seq<u8>, levels: Seq<LevelView>) -> bool {
    &&& forall|at: int|
        0 <= at < levels.len() ==> 0 <= (#[trigger] levels[at]).marker_start
            <= levels[at].image_start <= data.len()
    &&& forall|at: int|
        0 <= at < levels.len() - 1 ==> (#[trigger] levels[at]).image_start <= levels[at
            + 1].marker_start
}

/// The levels found from an offset on lie behind that offset, one behind
/// the other, and are at most as many as there are levels left.
pub proof fn lemma_locate_levels_in_order(data: Seq<u8>, level: int, from: int)
    ensures
        levels_in_order(data, locate_levels_from(data, level, from)),
        locate_levels_from(data, level, from).len() > 0 ==> from <= locate_levels_from(
            data,
            level,
            from,
        )[0].marker_start,
        locate_levels_from(data, level, from).len() == 0 || 1 <= level <= MAX_LEVELS + 1
            - locate_levels_from(data, level, from).len(),
    decreases MAX_LEVELS + 1 - level,
{
    let levels = locate_levels_from(data, level, from);
    if level < 1 || level > MAX_LEVELS || from < 0 || from > data.len() {
    } else {
        let tail = data.subrange(from, data.len() as int);
        match first_occurrence(tail, level_marker(level)) {
            None => {},
            Some(found) => {
                assert(is_first_occurrence(tail, level_marker(level), found));
                let marker_start = from + found;
                let image_start = image_start_of(data, marker_start);
                let rest = locate_levels_from(data, level + 1, image_start);
                lemma_locate_levels_in_order(data, level + 1, image_start);
                assert(levels =~= seq![LevelView { marker_start, image_start }] + rest);
                assert forall|at: int| 0 <= at < levels.len() implies 0 <= (
                #[trigger] levels[at]).marker_start <= levels[at].image_start <= data.len() by {
                    if at > 0 {
                        assert(levels[at] == rest[at - 1]);
                    }
                }
                assert forall|at: int| 0 <= at < levels.len() - 1 implies (
                #[trigger] levels[at]).image_start <= levels[at + 1].marker_start by {
                    assert(levels[at + 1] == rest[at]);
                    if at > 0 {
                        assert(levels[at] == rest[at - 1]);
                    }
                }
            },
        }
    }
}

/// The marker of level `level`.
pub fn level_marker_bytes(level: u8) -> (marker: Vec<u8>)
    requires
        1 <= level <= MAX_LEVELS,
    ensures
        marker@ == level_marker(level as int),
{
    let mut marker: Vec<u8> = Vec::new();
    marker.push(108);
    marker.push(101);
    marker.push(118);
    marker.push(101);
    marker.push(108);
    marker.push(95);
    marker.push(48 + level);
    proof {
        assert(marker@ =~= level_marker(level as int));
    }
    marker
}

/// Locates the levels of the container `data`: level 1 first, then each
/// next level behind the one before, up to the first level that is missing.
pub fn locate_levels(data: &[u8]) -> (levels: Vec<Level>)
    ensures
        levels.deep_view() == levels_of(data@),
        levels_in_order(data@, levels_of(data@)),
        levels@.len() <= MAX_LEVELS,
{
    let size = data.len();
    let mut levels: Vec<Level> = Vec::new();
    let mut from: usize = 0;
    let mut level: u8 = 1;
    proof {
        lemma_locate_levels_in_order(data@, 1, 0);
        assert(levels.deep_view() =~= Seq::<LevelView>::empty());
    }
    while level <= MAX_LEVELS
        invariant
            1 <= level <= MAX_LEVELS + 1,
            from <= size == data@.len(),
            levels_of(data@) == levels.deep_view() + locate_levels_from(
                data@,
                level as int,
                from as int,
            ),
        ensures
            levels_of(data@) == levels.deep_view(),
        decreases MAX_LEVELS + 1 - level,
    {
        let marker = level_marker_bytes(level);
        let tail = slice_subrange(data, from, size);
        let ghost located = levels.deep_view();
        match find_subsequence(tail, marker.as_slice()) {
            None => {
                proof {
                    lemma_first_occurrence_none(tail@, marker@);
                    assert(located + Seq::<LevelView>::empty() =~= located);
                }
                break ;
            },
            Some(found) => {
                proof {
                    lemma_first_occurrence_is(tail@, marker@, found as int);
                }
                let marker_start = from + found;
                let image_start = if size - marker_start > MARKER_LEN {
                    marker_start + MARKER_LEN + 1
                } else {
                    size
                };
                levels.push(Level { marker_start, image_start });
                proof {
                    let entry = LevelView {
                        marker_start: marker_start as int,
                        image_start: image_start as int,
                    };
                    let rest = locate_levels_from(data@, level + 1, image_start as int);
                    assert(levels.deep_view() =~= located.push(entry));
                    assert(located + (seq![entry] + rest) =~= located.push(entry) + rest);
                }
                from = image_start;
                level += 1;
            },
        }
    }
    proof {
        if level > MAX_LEVELS {
            assert(levels.deep_view() + Seq::<LevelView>::empty() =~= levels.deep_view());
        }
        lemma_locate_levels_in_order(data@, 1, 0);
    }
    levels
}

/// Cuts the embedded images out of a preview container. `file_contents`
/// is the whole container. The images come back as the bytes that the
/// container holds for them, lowest level first; a container without the
/// marker of level 1 holds none.
pub fn get_jpeg_byte_segments_from_file(file_contents: &[u8]) -> (segments: Vec<Vec<u8>>)
    ensures
        segments.deep_view() == segments_of(file_contents@),
        segments@.len() <= MAX_LEVELS,
{
    let size = file_contents.len();
    let levels = locate_levels(file_contents);
    let ghost spans = levels_of(file_contents@);
    let mut segments: Vec<Vec<u8>> = Vec::new();
    let mut at: usize = 0;
    while at < levels.len()
        invariant
            at <= levels@.len() == spans.len(),
            size == file_contents@.len(),
            spans == levels_of(file_contents@),
            spans == levels.deep_view(),
            levels_in_order(file_contents@, spans),
            segments@.len() == at,
            forall|k: int|
                0 <= k < at ==> (#[trigger] segments@[k])@ == file_contents@.subrange(
                    spans[k].image_start,
                    image_end_of(file_contents@, spans, k),
                ),
        decreases levels@.len() - at,
    {
        let begin = levels[at].image_start;
        let end = if at + 1 < levels.len() {
            levels[at + 1].marker_start
        } else {
            size
        };
        proof {
            assert(spans[at as int] == levels@[at as int]@);
            if at + 1 < levels@.len() {
                assert(spans[at + 1] == levels@[at + 1]@);
            }
        }
        let segment = slice_to_vec(slice_subrange(file_contents, begin, end));
        segments.push(segment);
        at += 1;
    }
    proof {
        assert forall|k: int| 0 <= k < segments@.len() implies segments.deep_view()[k]
            == segments_of(file_contents@)[k] by {
            assert(segments@[k].deep_view() =~= segments@[k]@);
        }
        assert(segments.deep_view() =~= segments_of(file_contents@));
    }
    segments
}

/// A decoded image of the `image` crate. Nothing is known of what it
/// holds.
#[verifier::external_type_specification]
#[verifier::external_body]
pub struct ExDynamicImage(DynamicImage);

/// The JPEG decoder of the `image` crate decodes `bytes` to an image, on
/// the platform that the crate is built for.
pub uninterp spec fn jpeg_decodes(bytes: Seq<u8>) -> bool;

/// Decodes `bytes` as a JPEG image with `JpegDecoder::new` and
/// `DynamicImage::from_decoder` of the `image` crate. Both report what
/// they cannot decode as an error, which becomes `None` here. Assumed, not
/// proved: whether an image comes back depends on the bytes alone.
#[verifier::external_body]
fn jpeg_from_bytes(bytes: &[u8]) -> (image: Option<DynamicImage>)
    ensures
        image.is_some() == jpeg_decodes(bytes@),
{
    let decoder = JpegDecoder::new(Cursor::new(bytes)).ok()?;
    DynamicImage::from_decoder(decoder).ok()
}

/// The items of `items` that are present, in their order.
pub open spec fn present(items: Seq<Option<DynamicImage>>) -> Seq<DynamicImage>
    decreases items.len(),
{
    if items.len() == 0 {
        Seq::empty()
    } else {
        match items.last() {
            Some(item) => present(items.drop_last()).push(item),
            None => present(items.drop_last()),
        }
    }
}

/// The number of byte strings among `segments` that decode as a JPEG
/// image.
pub open spec fn count_decodable(segments: Seq<Seq<u8>>) -> nat
    decreases segments.len(),
{
    if segments.len() == 0 {
        0
    } else if jpeg_decodes(segments.last()) {
        count_decodable(segments.drop_last()) + 1
    } else {
        count_decodable(segments.drop_last())
    }
}

/// Keeps the images that were decoded and drops the failures, without
/// changing the order.
pub fn keep_decoded(decoded: Vec<Option<DynamicImage>>) -> (images: Vec<DynamicImage>)
    ensures
        images@ == present(decoded@),
{
    let ghost all = decoded@;
    let mut images: Vec<DynamicImage> = Vec::new();
    proof {
        assert(all.take(0) =~= Seq::<Option<DynamicImage>>::empty());
    }
    for item in items: decoded
        invariant
            items.seq() == all,
            images@ == present(all.take(items.index() as int)),
    {
        proof {
            let taken = items.index() as int;
            assert(all.take(taken + 1).drop_last() =~= all.take(taken));
            assert(all.take(taken + 1).last() == all[taken]);
        }
        match item {
            Some(image) => {
                images.push(image);
            },
            None => {},
        }
    }
    proof {
        assert(all.take(all.len() as int) =~= all);
    }
    images
}

/// `decoded` holds, for each of `segments` and in their order, the image
/// that it decodes to, or nothing where it does not decode.
pub open spec fn is_decoding_of(decoded: Seq<Option<DynamicImage>>, segments: Seq<Seq<u8>>) -> bool {
    &&& decoded.len() == segments.len()
    &&& forall|at: int|
        0 <= at < segments.len() ==> (#[trigger] decoded[at]).is_some() == jpeg_decodes(
            segments[at],
        )
}

/// Decodes each of `segments` as a JPEG image.
pub fn decode_segments(segments: &Vec<Vec<u8>>) -> (decoded: Vec<Option<DynamicImage>>)
    ensures
        is_decoding_of(decoded@, segments.deep_view()),
{
    let mut decoded: Vec<Option<DynamicImage>> = Vec::new();
    let mut at: usize = 0;
    while at < segments.len()
        invariant
            at <= segments@.len(),
            decoded@.len() == at,
            forall|k: int|
                0 <= k < at ==> (#[trigger] decoded@[k]).is_some() == jpeg_decodes(segments@[k]@),
        decreases segments@.len() - at,
    {
        let image = jpeg_from_bytes(segments[at].as_slice());
        decoded.push(image);
        at += 1;
    }
    proof {
        assert forall|k: int| 0 <= k < segments@.len() implies (#[trigger] decoded@[k]).is_some()
            == jpeg_decodes(segments.deep_view()[k]) by {
            assert(segments.deep_view()[k] == segments@[k].deep_view());
            assert(segments@[k].deep_view() =~= segments@[k]@);
        }
    }
    decoded
}

/// As many items of `decoded` are present as `segments` has byte strings
/// that decode, where the two agree item by item.
pub proof fn lemma_present_counts(decoded: Seq<Option<DynamicImage>>, segments: Seq<Seq<u8>>)
    requires
        is_decoding_of(decoded, segments),
    ensures
        present(decoded).len() == count_decodable(segments),
    decreases decoded.len(),
{
    if decoded.len() > 0 {
        lemma_present_counts(decoded.drop_last(), segments.drop_last());
    }
}

/// Decodes the embedded images of a preview container. `file_contents`
/// is the whole container. The images come back lowest level first. A
/// level whose bytes do not decode is left out, and the others stay; a
/// container without levels gives no image.
pub fn get_jpegs_from_file(file_contents: &[u8]) -> (images: Vec<DynamicImage>)
    ensures
        exists|decoded: Seq<Option<DynamicImage>>| #[trigger]
            is_decoding_of(decoded, segments_of(file_contents@)) && images@ == present(decoded),
        images@.len() == count_decodable(segments_of(file_contents@)),
        images@.len() <= MAX_LEVELS,
{
    let byte_sequences = get_jpeg_byte_segments_from_file(file_contents);
    let jpegs = decode_segments(&byte_sequences);
    proof {
        let segments = segments_of(file_contents@);
        lemma_present_counts(jpegs@, segments);
        lemma_count_decodable_bound(segments);
    }
    keep_decoded(jpegs)
}

/// No more byte strings decode than there are.
pub proof fn lemma_count_decodable_bound(segments: Seq<Seq<u8>>)
    ensures
        count_decodable(segments) <= segments.len(),
    decreases segments.len(),
{
    if segments.len() > 0 {
        lemma_count_decodable_bound(segments.drop_last());
    }
}

/// The byte strings among `segments` that decode as a JPEG image, in
/// their order.
pub open spec fn decodable(segments: Seq<Seq<u8>>) -> Seq<Seq<u8>>
    decreases segments.len(),
{
    if segments.len() == 0 {
        Seq::empty()
    } else if jpeg_decodes(segments.last()) {
        decodable(segments.drop_last()).push(segments.last())
    } else {
        decodable(segments.drop_last())
    }
}

/// There are as many decodable byte strings as are counted.
pub proof fn lemma_decodable_len(segments: Seq<Seq<u8>>)
    ensures
        decodable(segments).len() == count_decodable(segments),
    decreases segments.len(),
{
    if segments.len() > 0 {
        lemma_decodable_len(segments.drop_last());
    }
}

/// Keeps the byte strings that decode as a JPEG image and drops the
/// others, without changing the order.
pub fn keep_decodable(segments: Vec<Vec<u8>>) -> (kept: Vec<Vec<u8>>)
    ensures
        kept.deep_view() == decodable(segments.deep_view()),
{
    let ghost all = segments.deep_view();
    let ghost raw = segments@;
    let mut kept: Vec<Vec<u8>> = Vec::new();
    proof {
        assert(all.take(0) =~= Seq::<Seq<u8>>::empty());
        assert(kept.deep_view() =~= Seq::<Seq<u8>>::empty());
    }
    for segment in items: segments
        invariant
            items.seq() == raw,
            all == raw.map_values(|segment: Vec<u8>| segment.deep_view()),
            kept.deep_view() == decodable(all.take(items.index() as int)),
    {
        let ghost before = kept.deep_view();
        proof {
            let taken = items.index() as int;
            assert(all.take(taken + 1).drop_last() =~= all.take(taken));
            assert(all.take(taken + 1).last() == raw[taken].deep_view());
            assert(segment.deep_view() =~= segment@);
        }
        if jpeg_from_bytes(segment.as_slice()).is_some() {
            kept.push(segment);
            proof {
                assert(kept.deep_view() =~= before.push(segment.deep_view()));
            }
        }
    }
    proof {
        assert(all.take(raw.len() as int) =~= all);
    }
    kept
}

} // verus!
