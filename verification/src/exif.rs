//! The decoded EXIF data that the rest of the crate reads.
//!
//! A tag set is an ordered list of entries, each a tag identifier with a
//! typed value. Values are held exactly as the file stores them: rationals
//! as numerator and denominator, IEEE 754 numbers as their bit patterns.

use vstd::prelude::*;

verus! {

/// An unsigned rational number, numerator over denominator.
#[derive(Clone, Copy, Debug, PartialEq, Eq, Hash, Structural)]
pub struct URational {
    pub numerator: u32,
    pub denominator: u32,
}

/// A signed rational number, numerator over denominator.
#[derive(Clone, Copy, Debug, PartialEq, Eq, Hash, Structural)]
pub struct IRational {
    pub numerator: i32,
    pub denominator: i32,
}

/// Identifier of an EXIF tag: the namespace in the most significant word,
/// the tag code of that namespace in the least significant word.
#[derive(Clone, Copy, Debug, PartialEq, Eq, Hash, Structural)]
pub struct ExifTag {
    pub code: u32,
}

pub const MODEL: u32 = 0x0000_0110;

pub const EXPOSURE_TIME: u32 = 0x0000_829a;

pub const EXPOSURE_PROGRAM: u32 = 0x0000_8822;

pub const ISO_SPEED_RATINGS: u32 = 0x0000_8827;

pub const DATE_TIME_ORIGINAL: u32 = 0x0000_9003;

pub const SHUTTER_SPEED_VALUE: u32 = 0x0000_9201;

pub const APERTURE_VALUE: u32 = 0x0000_9202;

pub const METERING_MODE: u32 = 0x0000_9207;

pub const FLASH: u32 = 0x0000_9209;

pub const FOCAL_LENGTH: u32 = 0x0000_920a;

pub const LENS_MODEL: u32 = 0x0000_a434;

impl ExifTag {
    /// The tag with the given identifier.
    pub fn new(code: u32) -> (tag: ExifTag)
        ensures
            tag.code == code,
    {
        ExifTag { code }
    }
}

/// The value of one tag. Most tags hold a list of values; a tag with a
/// single value holds a list of one.
#[derive(Clone, Debug, PartialEq, Eq)]
pub enum TagValue {
    /// Unsigned bytes.
    U8(Vec<u8>),
    /// Text.
    Ascii(String),
    U16(Vec<u16>),
    U32(Vec<u32>),
    URational(Vec<URational>),
    I8(Vec<i8>),
    /// Bytes of a format that the tag itself defines, with the byte order of
    /// the file (`true` for little-endian).
    Undefined(Vec<u8>, bool),
    I16(Vec<i16>),
    I32(Vec<i32>),
    IRational(Vec<IRational>),
    /// Single-precision IEEE 754 numbers, each as its bit pattern.
    F32(Vec<u32>),
    /// Double-precision IEEE 754 numbers, each as its bit pattern.
    F64(Vec<u64>),
    /// Bytes of a format that is not one of the above, with the byte order
    /// of the file.
    Unknown(Vec<u8>, bool),
    /// Bytes that could not be read as the format they announce: the raw
    /// bytes, the byte order, the format code and the announced count.
    Invalid(Vec<u8>, bool, u16, u32),
}

/// Mathematical model of a [`TagValue`].
pub enum TagValueView {
    U8(Seq<u8>),
    Ascii(Seq<char>),
    U16(Seq<u16>),
    U32(Seq<u32>),
    URational(Seq<URational>),
    I8(Seq<i8>),
    Undefined(Seq<u8>, bool),
    I16(Seq<i16>),
    I32(Seq<i32>),
    IRational(Seq<IRational>),
    F32(Seq<u32>),
    F64(Seq<u64>),
    Unknown(Seq<u8>, bool),
    Invalid(Seq<u8>, bool, u16, u32),
}

impl View for TagValue {
    type V = TagValueView;

    open spec fn view(&self) -> TagValueView {
        match *self {
            TagValue::U8(v) => TagValueView::U8(v@),
            TagValue::Ascii(s) => TagValueView::Ascii(s@),
            TagValue::U16(v) => TagValueView::U16(v@),
            TagValue::U32(v) => TagValueView::U32(v@),
            TagValue::URational(v) => TagValueView::URational(v@),
            TagValue::I8(v) => TagValueView::I8(v@),
            TagValue::Undefined(v, le) => TagValueView::Undefined(v@, le),
            TagValue::I16(v) => TagValueView::I16(v@),
            TagValue::I32(v) => TagValueView::I32(v@),
            TagValue::IRational(v) => TagValueView::IRational(v@),
            TagValue::F32(v) => TagValueView::F32(v@),
            TagValue::F64(v) => TagValueView::F64(v@),
            TagValue::Unknown(v, le) => TagValueView::Unknown(v@, le),
            TagValue::Invalid(v, le, format, count) => TagValueView::Invalid(v@, le, format, count),
        }
    }
}

impl DeepView for TagValue {
    type V = TagValueView;

    open spec fn deep_view(&self) -> TagValueView {
        self@
    }
}

/// One decoded tag: its identifier and its value.
#[derive(Clone, Debug, PartialEq, Eq)]
pub struct ExifEntry {
    pub tag: ExifTag,
    pub value: TagValue,
}

/// Mathematical model of an [`ExifEntry`].
pub struct ExifEntryView {
    pub tag: ExifTag,
    pub value: TagValueView,
}

impl View for ExifEntry {
    type V = ExifEntryView;

    open spec fn view(&self) -> ExifEntryView {
        ExifEntryView { tag: self.tag, value: self.value@ }
    }
}

impl DeepView for ExifEntry {
    type V = ExifEntryView;

    open spec fn deep_view(&self) -> ExifEntryView {
        self@
    }
}

/// A number that a tag holds, kept exactly: either a rational or the bit
/// pattern of an IEEE 754 number. It stands for one double-precision value,
/// which a caller obtains by widening the pattern or by dividing numerator
/// by denominator.
#[derive(Clone, Copy, Debug, PartialEq, Eq, Hash, Structural)]
pub enum RealValue {
    /// Bit pattern of a single-precision number.
    Single(u32),
    /// Bit pattern of a double-precision number.
    Double(u64),
    Signed(IRational),
    Unsigned(URational),
}

/// The value of the first entry of `entries` that carries `tag`.
pub open spec fn first_with_tag(entries: Seq<ExifEntryView>, tag: ExifTag) -> Option<TagValueView>
    decreases entries.len(),
{
    if entries.len() == 0 {
        None
    } else if entries[0].tag == tag {
        Some(entries[0].value)
    } else {
        first_with_tag(entries.drop_first(), tag)
    }
}

/// Entries that do not carry `tag` can be skipped in front of a tag set.
pub proof fn lemma_first_with_tag_skip(entries: Seq<ExifEntryView>, tag: ExifTag, n: int)
    requires
        0 <= n <= entries.len(),
        forall|j: int| 0 <= j < n ==> entries[j].tag != tag,
    ensures
        first_with_tag(entries, tag) == first_with_tag(entries.skip(n), tag),
    decreases n,
{
    if n == 0 {
        assert(entries.skip(0) =~= entries);
    } else {
        let rest = entries.drop_first();
        assert forall|j: int| 0 <= j < n - 1 implies rest[j].tag != tag by {
            assert(rest[j] == entries[j + 1]);
        }
        lemma_first_with_tag_skip(rest, tag, n - 1);
        assert(rest.skip(n - 1) =~= entries.skip(n));
    }
}

/// Looks up the first entry of `exif_data` that carries `tag`.
pub fn find_entry<'a>(exif_data: &'a Vec<ExifEntry>, tag: ExifTag) -> (found: Option<&'a ExifEntry>)
    ensures
        match found {
            Some(entry) => entry.tag == tag && first_with_tag(exif_data.deep_view(), tag) == Some(
                entry@.value,
            ),
            None => first_with_tag(exif_data.deep_view(), tag) is None,
        },
{
    let ghost entries = exif_data.deep_view();
    let mut i: usize = 0;
    while i < exif_data.len()
        invariant
            i <= exif_data@.len(),
            entries == exif_data.deep_view(),
            forall|j: int| 0 <= j < i ==> entries[j].tag != tag,
        decreases exif_data@.len() - i,
    {
        if exif_data[i].tag.code == tag.code {
            proof {
                lemma_first_with_tag_skip(entries, tag, i as int);
                assert(entries.skip(i as int)[0] == exif_data@[i as int]@);
            }
            return Some(&exif_data[i]);
        }
        i += 1;
    }
    proof {
        lemma_first_with_tag_skip(entries, tag, i as int);
    }
    None
}

} // verus!
