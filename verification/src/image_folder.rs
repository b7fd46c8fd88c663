//! Tag extraction and the metadata record of one file.

use crate::exif::{
    find_entry, first_with_tag, ExifEntry, ExifEntryView, ExifTag, RealValue, TagValue,
    TagValueView, APERTURE_VALUE, DATE_TIME_ORIGINAL, EXPOSURE_PROGRAM, EXPOSURE_TIME, FLASH,
    FOCAL_LENGTH, ISO_SPEED_RATINGS, LENS_MODEL, METERING_MODE, MODEL, SHUTTER_SPEED_VALUE,
};
use crate::image_data::{ImageMetadataFields, ImageMetadataFieldsView};
use crate::xmp::{embedded_rating, rating_of, XmpProperty, XmpPropertyView};
use std::collections::HashMap;
use vstd::prelude::*;

verus! {

broadcast use vstd::std_specs::hash::group_hash_axioms;

/// A tag value brought to one of four plain shapes.
#[derive(Clone, Debug, PartialEq, Eq)]
pub enum DataVariant {
    Integer(i64),
    SignedRational(RealValue),
    UnsignedRational(RealValue),
    Ascii(String),
}

/// Mathematical model of a [`DataVariant`].
pub enum DataVariantView {
    Integer(i64),
    SignedRational(RealValue),
    UnsignedRational(RealValue),
    Ascii(Seq<char>),
}

impl View for DataVariant {
    type V = DataVariantView;

    open spec fn view(&self) -> DataVariantView {
        match *self {
            DataVariant::Integer(number) => DataVariantView::Integer(number),
            DataVariant::SignedRational(number) => DataVariantView::SignedRational(number),
            DataVariant::UnsignedRational(number) => DataVariantView::UnsignedRational(number),
            DataVariant::Ascii(text) => DataVariantView::Ascii(text@),
        }
    }
}

impl DeepView for DataVariant {
    type V = DataVariantView;

    open spec fn deep_view(&self) -> DataVariantView {
        self@
    }
}

/// The tags that the summary of a file holds, in the order in which it is
/// filled.
pub const TAGS: [u32; 10] = [
    DATE_TIME_ORIGINAL,
    MODEL,
    LENS_MODEL,
    SHUTTER_SPEED_VALUE,
    APERTURE_VALUE,
    FOCAL_LENGTH,
    ISO_SPEED_RATINGS,
    EXPOSURE_PROGRAM,
    METERING_MODE,
    FLASH,
];

/// `code` identifies one of the tags of the summary.
pub open spec fn is_summary_tag(code: u32) -> bool {
    exists|i: int| 0 <= i < 10 && TAGS[i] == code
}

/// What is known of one file: the summary of ten of its tags, each brought
/// to a plain shape or absent, and the tag set itself.
#[derive(Clone, Debug, PartialEq, Eq)]
pub struct ImageData {
    pub data: HashMap<u32, Option<DataVariant>>,
    pub tags: Vec<ExifEntry>,
}

/// Mathematical model of an [`ImageData`].
pub struct ImageDataView {
    pub data: Map<u32, Option<DataVariantView>>,
    pub tags: Seq<ExifEntryView>,
}

impl View for ImageData {
    type V = ImageDataView;

    open spec fn view(&self) -> ImageDataView {
        ImageDataView {
            data: Map::new(
                |code: u32| self.data@.contains_key(code),
                |code: u32| self.data@[code].deep_view(),
            ),
            tags: self.tags.deep_view(),
        }
    }
}

impl DeepView for ImageData {
    type V = ImageDataView;

    open spec fn deep_view(&self) -> ImageDataView {
        self@
    }
}

/// Identity of a file: the folder that was indexed and the path of the
/// file.
#[derive(PartialEq, Eq, PartialOrd, Ord, Hash, Debug, Clone)]
pub struct ImagePaths {
    pub folder: String,
    pub filepath: String,
}

/// Mathematical model of an [`ImagePaths`].
pub struct ImagePathsView {
    pub folder: Seq<char>,
    pub filepath: Seq<char>,
}

impl View for ImagePaths {
    type V = ImagePathsView;

    open spec fn view(&self) -> ImagePathsView {
        ImagePathsView { folder: self.folder@, filepath: self.filepath@ }
    }
}

impl DeepView for ImagePaths {
    type V = ImagePathsView;

    open spec fn deep_view(&self) -> ImagePathsView {
        self@
    }
}

/// The plain shape of a tag value. Text stays text. Integers of 8, 16 or 32
/// bits, signed or not, widen to 64 bits. A single-precision number and a
/// signed rational become a signed real, a double-precision number and an
/// unsigned rational an unsigned real. Of a value with several elements the
/// first counts; a value without elements, or of another type, has no plain
/// shape. That the narrow IEEE 754 width goes with the signed rationals and
/// the wide one with the unsigned is a convention of this summary; it says
/// nothing of the sign of the number.
pub open spec fn coerce(value: TagValueView) -> Option<DataVariantView> {
    match value {
        TagValueView::Ascii(text) => Some(DataVariantView::Ascii(text)),
        TagValueView::U8(items) => if items.len() > 0 {
            Some(DataVariantView::Integer(items[0] as i64))
        } else {
            None
        },
        TagValueView::U16(items) => if items.len() > 0 {
            Some(DataVariantView::Integer(items[0] as i64))
        } else {
            None
        },
        TagValueView::U32(items) => if items.len() > 0 {
            Some(DataVariantView::Integer(items[0] as i64))
        } else {
            None
        },
        TagValueView::I8(items) => if items.len() > 0 {
            Some(DataVariantView::Integer(items[0] as i64))
        } else {
            None
        },
        TagValueView::I16(items) => if items.len() > 0 {
            Some(DataVariantView::Integer(items[0] as i64))
        } else {
            None
        },
        TagValueView::I32(items) => if items.len() > 0 {
            Some(DataVariantView::Integer(items[0] as i64))
        } else {
            None
        },
        TagValueView::F32(items) => if items.len() > 0 {
            Some(DataVariantView::SignedRational(RealValue::Single(items[0])))
        } else {
            None
        },
        TagValueView::F64(items) => if items.len() > 0 {
            Some(DataVariantView::UnsignedRational(RealValue::Double(items[0])))
        } else {
            None
        },
        TagValueView::IRational(items) => if items.len() > 0 {
            Some(DataVariantView::SignedRational(RealValue::Signed(items[0])))
        } else {
            None
        },
        TagValueView::URational(items) => if items.len() > 0 {
            Some(DataVariantView::UnsignedRational(RealValue::Unsigned(items[0])))
        } else {
            None
        },
        _ => None,
    }
}

/// The entry of the summary for `tag`: the plain shape of the first entry
/// of the tag set that carries the tag.
pub open spec fn summary_entry(tags: Seq<ExifEntryView>, tag: ExifTag) -> Option<DataVariantView> {
    match first_with_tag(tags, tag) {
        Some(value) => coerce(value),
        None => None,
    }
}

/// The summary of a tag set: one entry for each of the ten tags, present
/// or not.
pub open spec fn summary_of(tags: Seq<ExifEntryView>) -> Map<u32, Option<DataVariantView>> {
    Map::new(|code: u32| is_summary_tag(code), |code: u32| summary_entry(tags, ExifTag { code }))
}

/// Brings a tag value to its plain shape.
pub fn coerce_value(value: &TagValue) -> (plain: Option<DataVariant>)
    ensures
        plain.deep_view() == coerce(value@),
{
    match value {
        TagValue::Ascii(text) => Some(DataVariant::Ascii(text.clone())),
        TagValue::U8(items) => if items.len() > 0 {
            Some(DataVariant::Integer(items[0] as i64))
        } else {
            None
        },
        TagValue::U16(items) => if items.len() > 0 {
            Some(DataVariant::Integer(items[0] as i64))
        } else {
            None
        },
        TagValue::U32(items) => if items.len() > 0 {
            Some(DataVariant::Integer(items[0] as i64))
        } else {
            None
        },
        TagValue::I8(items) => if items.len() > 0 {
            Some(DataVariant::Integer(items[0] as i64))
        } else {
            None
        },
        TagValue::I16(items) => if items.len() > 0 {
            Some(DataVariant::Integer(items[0] as i64))
        } else {
            None
        },
        TagValue::I32(items) => if items.len() > 0 {
            Some(DataVariant::Integer(items[0] as i64))
        } else {
            None
        },
        TagValue::F32(items) => if items.len() > 0 {
            Some(DataVariant::SignedRational(RealValue::Single(items[0])))
        } else {
            None
        },
        TagValue::F64(items) => if items.len() > 0 {
            Some(DataVariant::UnsignedRational(RealValue::Double(items[0])))
        } else {
            None
        },
        TagValue::IRational(items) => if items.len() > 0 {
            Some(DataVariant::SignedRational(RealValue::Signed(items[0])))
        } else {
            None
        },
        TagValue::URational(items) => if items.len() > 0 {
            Some(DataVariant::UnsignedRational(RealValue::Unsigned(items[0])))
        } else {
            None
        },
        _ => None,
    }
}

/// Records the outcome of decoding the file `filename`, found while
/// indexing `folder`. `parsed` is the tag set of the file, or nothing where
/// the file holds no EXIF data that could be decoded. Such a file keeps its
/// identity and has no data.
pub fn read_file_with_rexif(folder: &String, filename: &String, parsed: Option<Vec<ExifEntry>>) -> (loaded:
    (ImagePaths, Option<ImageData>))
    ensures
        loaded.0@ == (ImagePathsView { folder: folder@, filepath: filename@ }),
        loaded.1.deep_view() == match parsed {
            Some(tags) => Some(
                ImageDataView { data: summary_of(tags.deep_view()), tags: tags.deep_view() },
            ),
            None => None,
        },
{
    let paths = ImagePaths { folder: folder.clone(), filepath: filename.clone() };
    match parsed {
        Some(exif_data) => {
            let ghost tags = exif_data.deep_view();
            let mut data_map: HashMap<u32, Option<DataVariant>> = HashMap::new();
            let mut i: usize = 0;
            while i < 10
                invariant
                    i <= 10,
                    tags == exif_data.deep_view(),
                    forall|code: u32|
                        data_map@.contains_key(code) <==> exists|j: int|
                            0 <= j < i && TAGS[j] == code,
                    forall|code: u32| #[trigger]
                        data_map@.contains_key(code) ==> data_map@[code].deep_view()
                            == summary_entry(tags, ExifTag { code }),
                decreases 10 - i,
            {
                let code = TAGS[i];
                let plain = match find_entry(&exif_data, ExifTag::new(code)) {
                    Some(entry) => coerce_value(&entry.value),
                    None => None,
                };
                let ghost before = data_map@;
                data_map.insert(code, plain);
                proof {
                    assert forall|other: u32| data_map@.contains_key(other) <==> exists|j: int|
                        0 <= j < i + 1 && TAGS[j] == other by {
                        if other == code {
                            assert(TAGS[i as int] == code);
                        } else if before.contains_key(other) {
                            let j = choose|j: int| 0 <= j < i && TAGS[j] == other;
                            assert(0 <= j < i + 1 && TAGS[j] == other);
                        }
                    }
                }
                i += 1;
            }
            let image_data = ImageData { data: data_map, tags: exif_data };
            proof {
                assert(image_data@.data =~= summary_of(tags));
            }
            (paths, Some(image_data))
        },
        None => (paths, None),
    }
}

/// The text that a tag value holds, if it is text.
pub open spec fn text_of(value: Option<TagValueView>) -> Option<Seq<char>> {
    match value {
        Some(TagValueView::Ascii(text)) => Some(text),
        _ => None,
    }
}

/// The first element of a value made of unsigned bytes.
pub open spec fn first_u8_of(value: Option<TagValueView>) -> Option<u8> {
    match value {
        Some(TagValueView::U8(items)) => if items.len() > 0 {
            Some(items[0])
        } else {
            None
        },
        _ => None,
    }
}

/// The first element of a value made of unsigned 16-bit integers.
pub open spec fn first_u16_of(value: Option<TagValueView>) -> Option<u16> {
    match value {
        Some(TagValueView::U16(items)) => if items.len() > 0 {
            Some(items[0])
        } else {
            None
        },
        _ => None,
    }
}

/// The first element of a value made of real numbers: IEEE 754 numbers of
/// either width, or rationals of either sign. A value of another type, or
/// without elements, gives none.
pub open spec fn real_of(value: Option<TagValueView>) -> Option<RealValue> {
    match value {
        Some(TagValueView::F32(items)) => if items.len() > 0 {
            Some(RealValue::Single(items[0]))
        } else {
            None
        },
        Some(TagValueView::F64(items)) => if items.len() > 0 {
            Some(RealValue::Double(items[0]))
        } else {
            None
        },
        Some(TagValueView::IRational(items)) => if items.len() > 0 {
            Some(RealValue::Signed(items[0]))
        } else {
            None
        },
        Some(TagValueView::URational(items)) => if items.len() > 0 {
            Some(RealValue::Unsigned(items[0]))
        } else {
            None
        },
        _ => None,
    }
}

/// Numerator and denominator of the first element of a value made of
/// unsigned rationals.
pub open spec fn exact_ratio_of(value: Option<TagValueView>) -> Option<(u32, u32)> {
    match value {
        Some(TagValueView::URational(items)) => if items.len() > 0 {
            Some((items[0].numerator, items[0].denominator))
        } else {
            None
        },
        _ => None,
    }
}

/// The text of the first entry that carries `tag`. Only a value of type
/// text counts: nothing is converted.
pub fn get_string_from_tags(exif_data: &Vec<ExifEntry>, tag: ExifTag) -> (text: Option<String>)
    ensures
        text.deep_view() == text_of(first_with_tag(exif_data.deep_view(), tag)),
{
    match find_entry(exif_data, tag) {
        Some(entry) => match &entry.value {
            TagValue::Ascii(text) => Some(text.clone()),
            _ => None,
        },
        None => None,
    }
}

/// The first element of the first entry that carries `tag`, where its value
/// is made of unsigned bytes.
pub fn get_u8_from_tags(exif_data: &Vec<ExifEntry>, tag: ExifTag) -> (number: Option<u8>)
    ensures
        number == first_u8_of(first_with_tag(exif_data.deep_view(), tag)),
{
    match find_entry(exif_data, tag) {
        Some(entry) => match &entry.value {
            TagValue::U8(items) => if items.len() > 0 {
                Some(items[0])
            } else {
                None
            },
            _ => None,
        },
        None => None,
    }
}

/// The first element of the first entry that carries `tag`, where its value
/// is made of unsigned 16-bit integers.
pub fn get_u16_from_tags(exif_data: &Vec<ExifEntry>, tag: ExifTag) -> (number: Option<u16>)
    ensures
        number == first_u16_of(first_with_tag(exif_data.deep_view(), tag)),
{
    match find_entry(exif_data, tag) {
        Some(entry) => match &entry.value {
            TagValue::U16(items) => if items.len() > 0 {
                Some(items[0])
            } else {
                None
            },
            _ => None,
        },
        None => None,
    }
}

/// The first element of the first entry that carries `tag`, where its value
/// is made of real numbers of any of the four kinds. The number comes back
/// exact; the caller turns it into a double-precision value.
pub fn get_f64_from_tags(exif_data: &Vec<ExifEntry>, tag: ExifTag) -> (number: Option<RealValue>)
    ensures
        number == real_of(first_with_tag(exif_data.deep_view(), tag)),
{
    match find_entry(exif_data, tag) {
        Some(entry) => match &entry.value {
            TagValue::F32(items) => if items.len() > 0 {
                Some(RealValue::Single(items[0]))
            } else {
                None
            },
            TagValue::F64(items) => if items.len() > 0 {
                Some(RealValue::Double(items[0]))
            } else {
                None
            },
            TagValue::IRational(items) => if items.len() > 0 {
                Some(RealValue::Signed(items[0]))
            } else {
                None
            },
            TagValue::URational(items) => if items.len() > 0 {
                Some(RealValue::Unsigned(items[0]))
            } else {
                None
            },
            _ => None,
        },
        None => None,
    }
}

/// Numerator and denominator of the exposure time, where the first entry
/// that carries `tag` holds unsigned rationals.
pub fn get_exact_ratio_from_tags(exif_data: &Vec<ExifEntry>, tag: ExifTag) -> (ratio: Option<
    (u32, u32),
>)
    ensures
        ratio == exact_ratio_of(first_with_tag(exif_data.deep_view(), tag)),
{
    match find_entry(exif_data, tag) {
        Some(entry) => match &entry.value {
            TagValue::URational(items) => if items.len() > 0 {
                Some((items[0].numerator, items[0].denominator))
            } else {
                None
            },
            _ => None,
        },
        None => None,
    }
}

/// The metadata record of a file. `folder` and `filename` are handed
/// through; the ten other fields come from fixed tags of the tag set, the
/// shutter speed from the exposure time as an exact fraction; `rating` is
/// the embedded rating.
pub open spec fn metadata_for(
    folder: Option<Seq<char>>,
    filename: Seq<char>,
    tags: Seq<ExifEntryView>,
    rating: Option<i16>,
) -> ImageMetadataFieldsView {
    ImageMetadataFieldsView {
        folder,
        filename,
        datetime_original: text_of(first_with_tag(tags, ExifTag { code: DATE_TIME_ORIGINAL })),
        model: text_of(first_with_tag(tags, ExifTag { code: MODEL })),
        lens_model: text_of(first_with_tag(tags, ExifTag { code: LENS_MODEL })),
        shutter_speed_value: exact_ratio_of(first_with_tag(tags, ExifTag { code: EXPOSURE_TIME })),
        aperture_value: real_of(first_with_tag(tags, ExifTag { code: APERTURE_VALUE })),
        focal_length: real_of(first_with_tag(tags, ExifTag { code: FOCAL_LENGTH })),
        iso_speed_rating: first_u16_of(first_with_tag(tags, ExifTag { code: ISO_SPEED_RATINGS })),
        exposure_program: first_u16_of(first_with_tag(tags, ExifTag { code: EXPOSURE_PROGRAM })),
        metering_mode: first_u16_of(first_with_tag(tags, ExifTag { code: METERING_MODE })),
        flash: first_u16_of(first_with_tag(tags, ExifTag { code: FLASH })),
        embedded_rating: rating,
    }
}

/// Builds the metadata record of the file `filename` from its tag set and
/// from its XMP properties, which hold the embedded rating. `xmp` is
/// nothing where the file has no XMP packet that could be read. The call
/// never fails: what the file does not say is absent from the record.
pub fn make_image_data_from_exif(
    folder: Option<String>,
    filename: String,
    exif_fields: &Vec<ExifEntry>,
    xmp: &Option<Vec<XmpProperty>>,
) -> (record: ImageMetadataFields)
    ensures
        record@ == metadata_for(
            folder.deep_view(),
            filename@,
            exif_fields.deep_view(),
            rating_of(xmp.deep_view()),
        ),
{
    let embedded_rating = embedded_rating(xmp);
    let datetime_original = get_string_from_tags(exif_fields, ExifTag::new(DATE_TIME_ORIGINAL));
    let model = get_string_from_tags(exif_fields, ExifTag::new(MODEL));
    let lens_model = get_string_from_tags(exif_fields, ExifTag::new(LENS_MODEL));
    let shutter_speed_value = get_exact_ratio_from_tags(exif_fields, ExifTag::new(EXPOSURE_TIME));
    let aperture_value = get_f64_from_tags(exif_fields, ExifTag::new(APERTURE_VALUE));
    let focal_length = get_f64_from_tags(exif_fields, ExifTag::new(FOCAL_LENGTH));
    let iso_speed_rating = get_u16_from_tags(exif_fields, ExifTag::new(ISO_SPEED_RATINGS));
    let exposure_program = get_u16_from_tags(exif_fields, ExifTag::new(EXPOSURE_PROGRAM));
    let metering_mode = get_u16_from_tags(exif_fields, ExifTag::new(METERING_MODE));
    let flash = get_u16_from_tags(exif_fields, ExifTag::new(FLASH));
    ImageMetadataFields {
        folder,
        filename,
        datetime_original,
        model,
        lens_model,
        shutter_speed_value,
        aperture_value,
        focal_length,
        iso_speed_rating,
        exposure_program,
        metering_mode,
        flash,
        embedded_rating,
    }
}

} // verus!
