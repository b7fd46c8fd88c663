//! What the browser answers when it is asked for an image.
//!
//! Reading files is left to the caller: a request is first planned, which
//! says what to read, and then answered from what the reading gave.

use crate::app_state::LightroomConfDirs;
use crate::error::{CommandResult, ReflexCommandError, ReflexCommandErrorView};
use crate::lrprev::{
    decodable, get_jpeg_byte_segments_from_file, keep_decodable, segments_of,
};
use crate::text::same_text;
use vstd::prelude::*;
use vstd::slice::slice_to_vec;

verus! {

/// The resolution that a viewer asks for.
#[derive(Clone, Copy, Debug, PartialEq, Eq, Hash, Structural)]
pub enum PreviewMode {
    /// The lowest level: fast.
    Low,
    /// The highest level: full quality.
    High,
}

/// The resolution that `mode` names: `lo` the low one, `hi` the high one.
pub open spec fn mode_of(mode: Seq<char>) -> Option<PreviewMode> {
    if mode == "lo"@ {
        Some(PreviewMode::Low)
    } else if mode == "hi"@ {
        Some(PreviewMode::High)
    } else {
        None
    }
}

/// Reads the name of a resolution.
pub fn preview_mode(mode: &str) -> (parsed: Option<PreviewMode>)
    ensures
        parsed == mode_of(mode@),
{
    if same_text(mode, "lo") {
        Some(PreviewMode::Low)
    } else if same_text(mode, "hi") {
        Some(PreviewMode::High)
    } else {
        None
    }
}

/// The image of `previews`, which are ordered from the lowest level up,
/// that `mode` asks for.
pub open spec fn selected(previews: Seq<Seq<u8>>, mode: PreviewMode) -> Option<Seq<u8>> {
    if previews.len() == 0 {
        None
    } else {
        match mode {
            PreviewMode::Low => Some(previews.first()),
            PreviewMode::High => Some(previews.last()),
        }
    }
}

/// Picks the image that `mode` asks for out of `previews`, which are
/// ordered from the lowest level up.
pub fn select_preview(previews: &Vec<Vec<u8>>, mode: PreviewMode) -> (picked: Option<Vec<u8>>)
    ensures
        picked.deep_view() == selected(previews.deep_view(), mode),
{
    if previews.len() == 0 {
        return None;
    }
    let at = match mode {
        PreviewMode::Low => 0,
        PreviewMode::High => previews.len() - 1,
    };
    let bytes = slice_to_vec(previews[at].as_slice());
    proof {
        assert(previews.deep_view()[at as int] == previews@[at as int].deep_view());
        assert(bytes.deep_view() =~= previews@[at as int].deep_view());
    }
    Some(bytes)
}

/// What the caller found of the file that a request needs.
#[derive(Clone, Debug, PartialEq, Eq)]
pub enum ImageFile {
    /// No file is known for the request.
    NotFound,
    /// The file could not be read.
    Unreadable,
    /// The bytes of the file.
    Contents(Vec<u8>),
}

/// Mathematical model of an [`ImageFile`].
pub enum ImageFileView {
    NotFound,
    Unreadable,
    Contents(Seq<u8>),
}

impl View for ImageFile {
    type V = ImageFileView;

    open spec fn view(&self) -> ImageFileView {
        match *self {
            ImageFile::NotFound => ImageFileView::NotFound,
            ImageFile::Unreadable => ImageFileView::Unreadable,
            ImageFile::Contents(bytes) => ImageFileView::Contents(bytes@),
        }
    }
}

/// Mathematical model of an answer.
pub open spec fn response_view(response: CommandResult<Vec<u8>>) -> Result<
    Seq<u8>,
    ReflexCommandErrorView,
> {
    match response {
        Ok(bytes) => Ok(bytes@),
        Err(error) => Err(error@),
    }
}

/// The answer to a request for the preview of the image `image_id` at the
/// resolution `mode`, where `file` is what was found of its preview
/// container. The answer is the bytes of the lowest or of the highest
/// level that decodes. A container that is missing, that cannot be read or
/// that holds no level is each a failure of its own, and so is a container
/// none of whose levels decodes.
pub open spec fn preview_response(
    file: ImageFileView,
    image_id: Seq<char>,
    image_path: Seq<char>,
    mode: Seq<char>,
) -> Result<Seq<u8>, ReflexCommandErrorView> {
    match file {
        ImageFileView::NotFound => Err(
            ReflexCommandErrorView::PreviewMissing { image_id, image_path },
        ),
        ImageFileView::Unreadable => Err(ReflexCommandErrorView::PreviewUnreadable { image_id }),
        ImageFileView::Contents(data) => {
            let segments = segments_of(data);
            if segments.len() == 0 {
                Err(ReflexCommandErrorView::NoImagesInPreview { image_id })
            } else {
                match mode_of(mode) {
                    None => Err(ReflexCommandErrorView::ImageNotProvided { image_id }),
                    Some(mode) => match selected(decodable(segments), mode) {
                        Some(bytes) => Ok(bytes),
                        None => Err(ReflexCommandErrorView::ImageNotProvided { image_id }),
                    },
                }
            }
        },
    }
}

/// Answers a request for the preview of the image `image_id` of a
/// catalogue. `file` is what the caller found of the preview container of
/// the image.
pub fn get_preview_image_response_for_adobe_image_id(
    file: &ImageFile,
    image_id: &str,
    image_path: &str,
    mode: &str,
) -> (response: CommandResult<Vec<u8>>)
    ensures
        response_view(response) == preview_response(file@, image_id@, image_path@, mode@),
{
    match file {
        ImageFile::NotFound => Err(
            ReflexCommandError::PreviewMissing {
                image_id: String::from_str(image_id),
                image_path: String::from_str(image_path),
            },
        ),
        ImageFile::Unreadable => Err(
            ReflexCommandError::PreviewUnreadable { image_id: String::from_str(image_id) },
        ),
        ImageFile::Contents(data) => {
            let loaded_image_bytes = get_jpeg_byte_segments_from_file(data.as_slice());
            if loaded_image_bytes.len() == 0 {
                return Err(
                    ReflexCommandError::NoImagesInPreview { image_id: String::from_str(image_id) },
                );
            }
            let wanted = match preview_mode(mode) {
                Some(wanted) => wanted,
                None => {
                    return Err(
                        ReflexCommandError::ImageNotProvided {
                            image_id: String::from_str(image_id),
                        },
                    );
                },
            };
            let decoding = keep_decodable(loaded_image_bytes);
            match select_preview(&decoding, wanted) {
                Some(bytes) => {
                    proof {
                        assert(bytes.deep_view() =~= bytes@);
                    }
                    Ok(bytes)
                },
                None => Err(
                    ReflexCommandError::ImageNotProvided { image_id: String::from_str(image_id) },
                ),
            }
        },
    }
}

/// The file that a request needs.
#[derive(Clone, Copy, Debug, PartialEq, Eq, Hash, Structural)]
pub enum ImageRequest {
    /// The preview container of the image, in the open catalogue.
    Preview,
    /// The image file itself.
    File,
}

/// What has to be read for a request: for an image of kind `adobe` its
/// preview container, for one of kind `exif` the image file. A request
/// with another kind, or with a resolution that is neither `hi` nor `lo`,
/// fails before anything is read.
pub open spec fn request_for(image_path: Seq<char>, image_type: Seq<char>, mode: Seq<char>) -> Result<
    ImageRequest,
    ReflexCommandErrorView,
> {
    if mode_of(mode) is None {
        Err(ReflexCommandErrorView::BadMode { received: mode })
    } else if image_type == "adobe"@ {
        Ok(ImageRequest::Preview)
    } else if image_type == "exif"@ {
        Ok(ImageRequest::File)
    } else {
        Err(ReflexCommandErrorView::BadImageType { image_type, image_path })
    }
}

/// Mathematical model of a planned request.
pub open spec fn request_view(request: CommandResult<ImageRequest>) -> Result<
    ImageRequest,
    ReflexCommandErrorView,
> {
    match request {
        Ok(request) => Ok(request),
        Err(error) => Err(error@),
    }
}

/// Plans a request for an image: says which file the caller has to read.
pub fn image_request(image_path: &str, image_type: &str, mode: &str) -> (request: CommandResult<
    ImageRequest,
>)
    ensures
        request_view(request) == request_for(image_path@, image_type@, mode@),
{
    if preview_mode(mode).is_none() {
        Err(ReflexCommandError::BadMode { received: String::from_str(mode) })
    } else if same_text(image_type, "adobe") {
        Ok(ImageRequest::Preview)
    } else if same_text(image_type, "exif") {
        Ok(ImageRequest::File)
    } else {
        Err(
            ReflexCommandError::BadImageType {
                image_type: String::from_str(image_type),
                image_path: String::from_str(image_path),
            },
        )
    }
}

/// The answer to a request for an image, where `file` is what was found
/// of the file that the request needs. For the image file itself the
/// answer is its bytes as they are.
pub open spec fn image_response(
    image_id: Seq<char>,
    image_path: Seq<char>,
    image_type: Seq<char>,
    mode: Seq<char>,
    file: ImageFileView,
) -> Result<Seq<u8>, ReflexCommandErrorView> {
    match request_for(image_path, image_type, mode) {
        Err(error) => Err(error),
        Ok(ImageRequest::Preview) => preview_response(file, image_id, image_path, mode),
        Ok(ImageRequest::File) => match file {
            ImageFileView::Contents(bytes) => Ok(bytes),
            _ => Err(ReflexCommandErrorView::ImageUnreadable { image_path }),
        },
    }
}

/// Answers a request for an image. `file` is what the caller found of the
/// file that [`image_request`] asked for.
pub fn get_image_for_id(
    image_id: &str,
    image_path: &str,
    image_type: &str,
    mode: &str,
    file: &ImageFile,
) -> (response: CommandResult<Vec<u8>>)
    ensures
        response_view(response) == image_response(
            image_id@,
            image_path@,
            image_type@,
            mode@,
            file@,
        ),
{
    match image_request(image_path, image_type, mode) {
        Err(error) => Err(error),
        Ok(ImageRequest::Preview) => get_preview_image_response_for_adobe_image_id(
            file,
            image_id,
            image_path,
            mode,
        ),
        Ok(ImageRequest::File) => match file {
            ImageFile::Contents(bytes) => Ok(slice_to_vec(bytes.as_slice())),
            _ => Err(ReflexCommandError::ImageUnreadable { image_path: String::from_str(image_path) }),
        },
    }
}

/// The parts of the catalogue that is to be opened, where the search for
/// them found them all. A catalogue some part of which is missing cannot
/// be opened.
pub fn found_catalog(conf_dirs: Option<LightroomConfDirs>) -> (found: CommandResult<
    LightroomConfDirs,
>)
    ensures
        match conf_dirs {
            Some(dirs) => found == Ok::<LightroomConfDirs, ReflexCommandError>(dirs),
            None => found matches Err(error) && error@ == ReflexCommandErrorView::CatalogIncomplete,
        },
{
    match conf_dirs {
        Some(dirs) => Ok(dirs),
        None => Err(ReflexCommandError::CatalogIncomplete),
    }
}

} // verus!
