//! The canonical metadata record of one image.

use crate::exif::RealValue;
use vstd::prelude::*;

verus! {

/// What the catalogue shows and sorts by for one image. Only the file name
/// is always there: every other field is absent where the file does not
/// say, or could not be decoded at all.
#[derive(Clone, Debug, PartialEq, Eq)]
pub struct ImageMetadataFields {
    pub folder: Option<String>,
    pub filename: String,
    pub datetime_original: Option<String>,
    pub model: Option<String>,
    pub lens_model: Option<String>,
    /// Exposure time in seconds, as numerator and denominator.
    pub shutter_speed_value: Option<(u32, u32)>,
    pub aperture_value: Option<RealValue>,
    pub focal_length: Option<RealValue>,
    pub iso_speed_rating: Option<u16>,
    pub exposure_program: Option<u16>,
    pub metering_mode: Option<u16>,
    pub flash: Option<u16>,
    pub embedded_rating: Option<i16>,
}

/// Mathematical model of an [`ImageMetadataFields`].
pub struct ImageMetadataFieldsView {
    pub folder: Option<Seq<char>>,
    pub filename: Seq<char>,
    pub datetime_original: Option<Seq<char>>,
    pub model: Option<Seq<char>>,
    pub lens_model: Option<Seq<char>>,
    pub shutter_speed_value: Option<(u32, u32)>,
    pub aperture_value: Option<RealValue>,
    pub focal_length: Option<RealValue>,
    pub iso_speed_rating: Option<u16>,
    pub exposure_program: Option<u16>,
    pub metering_mode: Option<u16>,
    pub flash: Option<u16>,
    pub embedded_rating: Option<i16>,
}

impl View for ImageMetadataFields {
    type V = ImageMetadataFieldsView;

    open spec fn view(&self) -> ImageMetadataFieldsView {
        ImageMetadataFieldsView {
            folder: self.folder.deep_view(),
            filename: self.filename@,
            datetime_original: self.datetime_original.deep_view(),
            model: self.model.deep_view(),
            lens_model: self.lens_model.deep_view(),
            shutter_speed_value: self.shutter_speed_value,
            aperture_value: self.aperture_value,
            focal_length: self.focal_length,
            iso_speed_rating: self.iso_speed_rating,
            exposure_program: self.exposure_program,
            metering_mode: self.metering_mode,
            flash: self.flash,
            embedded_rating: self.embedded_rating,
        }
    }
}

impl DeepView for ImageMetadataFields {
    type V = ImageMetadataFieldsView;

    open spec fn deep_view(&self) -> ImageMetadataFieldsView {
        self@
    }
}

impl ImageMetadataFieldsView {
    /// No field but the folder and the file name is present.
    pub open spec fn only_names(self) -> bool {
        &&& self.datetime_original is None
        &&& self.model is None
        &&& self.lens_model is None
        &&& self.shutter_speed_value is None
        &&& self.aperture_value is None
        &&& self.focal_length is None
        &&& self.iso_speed_rating is None
        &&& self.exposure_program is None
        &&& self.metering_mode is None
        &&& self.flash is None
        &&& self.embedded_rating is None
    }
}

impl ImageMetadataFields {
    /// A copy of the record.
    pub fn duplicate(&self) -> (copy: ImageMetadataFields)
        ensures
            copy@ == self@,
    {
        ImageMetadataFields {
            folder: duplicate_text(&self.folder),
            filename: self.filename.clone(),
            datetime_original: duplicate_text(&self.datetime_original),
            model: duplicate_text(&self.model),
            lens_model: duplicate_text(&self.lens_model),
            shutter_speed_value: self.shutter_speed_value,
            aperture_value: self.aperture_value,
            focal_length: self.focal_length,
            iso_speed_rating: self.iso_speed_rating,
            exposure_program: self.exposure_program,
            metering_mode: self.metering_mode,
            flash: self.flash,
            embedded_rating: self.embedded_rating,
        }
    }
}

/// A copy of an optional text.
pub fn duplicate_text(text: &Option<String>) -> (copy: Option<String>)
    ensures
        copy.deep_view() == text.deep_view(),
{
    match text {
        Some(s) => Some(s.clone()),
        None => None,
    }
}

} // verus!
