//! The failures that a request of the browser can end in.

use vstd::prelude::*;
use vstd::std_specs::convert::FromSpecImpl;

verus! {

/// Why a request of the browser failed.
#[derive(Clone, Debug, PartialEq, Eq)]
pub enum ReflexCommandError {
    /// A failure that is described by its text alone.
    Message(String),
    /// The resolution asked for is neither `hi` nor `lo`.
    BadMode { received: String },
    /// The kind of image asked for is neither `adobe` nor `exif`.
    BadImageType { image_type: String, image_path: String },
    /// The catalogue knows no preview of the image.
    PreviewMissing { image_id: String, image_path: String },
    /// The preview container of the image could not be read.
    PreviewUnreadable { image_id: String },
    /// The preview container of the image holds no level.
    NoImagesInPreview { image_id: String },
    /// The preview container was read, and no image could be handed out.
    ImageNotProvided { image_id: String },
    /// The image file could not be read.
    ImageUnreadable { image_path: String },
    /// The parts of a catalogue were not all found.
    CatalogIncomplete,
}

/// Mathematical model of a [`ReflexCommandError`].
pub enum ReflexCommandErrorView {
    Message(Seq<char>),
    BadMode { received: Seq<char> },
    BadImageType { image_type: Seq<char>, image_path: Seq<char> },
    PreviewMissing { image_id: Seq<char>, image_path: Seq<char> },
    PreviewUnreadable { image_id: Seq<char> },
    NoImagesInPreview { image_id: Seq<char> },
    ImageNotProvided { image_id: Seq<char> },
    ImageUnreadable { image_path: Seq<char> },
    CatalogIncomplete,
}

impl View for ReflexCommandError {
    type V = ReflexCommandErrorView;

    open spec fn view(&self) -> ReflexCommandErrorView {
        match *self {
            ReflexCommandError::Message(text) => ReflexCommandErrorView::Message(text@),
            ReflexCommandError::BadMode { received } => ReflexCommandErrorView::BadMode {
                received: received@,
            },
            ReflexCommandError::BadImageType {
                image_type,
                image_path,
            } => ReflexCommandErrorView::BadImageType {
                image_type: image_type@,
                image_path: image_path@,
            },
            ReflexCommandError::PreviewMissing {
                image_id,
                image_path,
            } => ReflexCommandErrorView::PreviewMissing {
                image_id: image_id@,
                image_path: image_path@,
            },
            ReflexCommandError::PreviewUnreadable {
                image_id,
            } => ReflexCommandErrorView::PreviewUnreadable { image_id: image_id@ },
            ReflexCommandError::NoImagesInPreview {
                image_id,
            } => ReflexCommandErrorView::NoImagesInPreview { image_id: image_id@ },
            ReflexCommandError::ImageNotProvided {
                image_id,
            } => ReflexCommandErrorView::ImageNotProvided { image_id: image_id@ },
            ReflexCommandError::ImageUnreadable {
                image_path,
            } => ReflexCommandErrorView::ImageUnreadable { image_path: image_path@ },
            ReflexCommandError::CatalogIncomplete => ReflexCommandErrorView::CatalogIncomplete,
        }
    }
}

impl DeepView for ReflexCommandError {
    type V = ReflexCommandErrorView;

    open spec fn deep_view(&self) -> ReflexCommandErrorView {
        self@
    }
}

/// What a request gives: its result, or why it failed.
pub type CommandResult<T> = Result<T, ReflexCommandError>;

/// A circumstance of a failure, written in front of what it qualifies.
pub open spec fn in_context(label: Seq<char>, subject: Seq<char>, rest: Seq<char>) -> Seq<char> {
    label + subject + ": "@ + rest
}

impl ReflexCommandErrorView {
    /// The text of the failure: its circumstances, the last one added
    /// first, each followed by a colon and a space, then what failed.
    pub open spec fn message(self) -> Seq<char> {
        match self {
            ReflexCommandErrorView::Message(text) => text,
            ReflexCommandErrorView::BadMode { received } => in_context(
                "received "@,
                received,
                "ArgumentError: mode must be 'hi' or 'lo'"@,
            ),
            ReflexCommandErrorView::BadImageType { image_type, image_path } => in_context(
                "for image_path "@,
                image_path,
                in_context("for image_type "@, image_type, "Bad image_type"@),
            ),
            ReflexCommandErrorView::PreviewMissing { image_id, image_path } => in_context(
                "for image_path "@,
                image_path,
                in_context(
                    "for image_id "@,
                    image_id,
                    "Preview does not exist and raw file not accessible"@,
                ),
            ),
            ReflexCommandErrorView::PreviewUnreadable { image_id } => in_context(
                "for image_id "@,
                image_id,
                "Failed to load image"@,
            ),
            ReflexCommandErrorView::NoImagesInPreview { image_id } => in_context(
                "for image_id "@,
                image_id,
                "Found no images in preview file"@,
            ),
            ReflexCommandErrorView::ImageNotProvided { image_id } => in_context(
                "for image_id "@,
                image_id,
                "Failed to provide image (despite image loaded)"@,
            ),
            ReflexCommandErrorView::ImageUnreadable { image_path } => in_context(
                "for image_path "@,
                image_path,
                "Failed to load image"@,
            ),
            ReflexCommandErrorView::CatalogIncomplete => "Failed to find the necessary components of the catalogue"@,
        }
    }
}

/// Writes a circumstance in front of what it qualifies.
fn with_context(label: &str, subject: &str, rest: String) -> (text: String)
    ensures
        text@ == in_context(label@, subject@, rest@),
{
    let mut text = String::from_str(label);
    text.append(subject);
    text.append(": ");
    text.append(rest.as_str());
    proof {
        assert(text@ =~= in_context(label@, subject@, rest@));
    }
    text
}

impl ReflexCommandError {
    /// The failure that `value` describes.
    pub fn from_message(value: &str) -> (error: ReflexCommandError)
        ensures
            error@ == ReflexCommandErrorView::Message(value@),
    {
        ReflexCommandError::Message(String::from_str(value))
    }

    /// The text of the failure.
    pub fn message(&self) -> (text: String)
        ensures
            text@ == self@.message(),
    {
        match self {
            ReflexCommandError::Message(text) => text.clone(),
            ReflexCommandError::BadMode { received } => with_context(
                "received ",
                received.as_str(),
                String::from_str("ArgumentError: mode must be 'hi' or 'lo'"),
            ),
            ReflexCommandError::BadImageType { image_type, image_path } => with_context(
                "for image_path ",
                image_path.as_str(),
                with_context(
                    "for image_type ",
                    image_type.as_str(),
                    String::from_str("Bad image_type"),
                ),
            ),
            ReflexCommandError::PreviewMissing { image_id, image_path } => with_context(
                "for image_path ",
                image_path.as_str(),
                with_context(
                    "for image_id ",
                    image_id.as_str(),
                    String::from_str("Preview does not exist and raw file not accessible"),
                ),
            ),
            ReflexCommandError::PreviewUnreadable { image_id } => with_context(
                "for image_id ",
                image_id.as_str(),
                String::from_str("Failed to load image"),
            ),
            ReflexCommandError::NoImagesInPreview { image_id } => with_context(
                "for image_id ",
                image_id.as_str(),
                String::from_str("Found no images in preview file"),
            ),
            ReflexCommandError::ImageNotProvided { image_id } => with_context(
                "for image_id ",
                image_id.as_str(),
                String::from_str("Failed to provide image (despite image loaded)"),
            ),
            ReflexCommandError::ImageUnreadable { image_path } => with_context(
                "for image_path ",
                image_path.as_str(),
                String::from_str("Failed to load image"),
            ),
            ReflexCommandError::CatalogIncomplete => String::from_str(
                "Failed to find the necessary components of the catalogue",
            ),
        }
    }
}

impl From<&str> for ReflexCommandError {
    /// The failure that `value` describes.
    fn from(value: &str) -> (error: ReflexCommandError)
        ensures
            error@ == ReflexCommandErrorView::Message(value@),
    {
        ReflexCommandError::from_message(value)
    }
}

impl FromSpecImpl<&str> for ReflexCommandError {
    /// What `from` gives is stated by its own clause, not by way of
    /// `from_spec`: a text does not name one `String` among those that hold
    /// it.
    open spec fn obeys_from_spec() -> bool {
        false
    }

    open spec fn from_spec(value: &str) -> ReflexCommandError {
        choose|error: ReflexCommandError| error@ == ReflexCommandErrorView::Message(value@)
    }
}

} // verus!
