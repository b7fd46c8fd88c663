use image::codecs::jpeg::JpegEncoder;
use image::ExtendedColorType;
use reflex::app_state::LightroomConfDirs;
use reflex::commands::{
    found_catalog, get_image_for_id, get_preview_image_response_for_adobe_image_id, image_request, preview_mode,
    select_preview, ImageFile, ImageRequest, PreviewMode,
};
use reflex::error::ReflexCommandError;

fn jpeg(width: u32, height: u32) -> Vec<u8> {
    let pixels: Vec<u8> = (0..width * height * 3).map(|i| (i % 253) as u8).collect();
    let mut bytes = Vec::new();
    JpegEncoder::new(&mut bytes)
        .encode(&pixels, width, height, ExtendedColorType::Rgb8)
        .unwrap();
    bytes
}

fn container(payloads: &[Vec<u8>]) -> Vec<u8> {
    let mut data = b"HEAD".to_vec();
    for (i, payload) in payloads.iter().enumerate() {
        data.extend_from_slice(format!("level_{}", i + 1).as_bytes());
        data.push(0);
        data.extend_from_slice(payload);
    }
    data
}

#[test]
fn preview_mode_knows_two_names() {
    assert_eq!(preview_mode("lo"), Some(PreviewMode::Low));
    assert_eq!(preview_mode("hi"), Some(PreviewMode::High));
    assert_eq!(preview_mode("LO"), None);
    assert_eq!(preview_mode(""), None);
    assert_eq!(preview_mode("high"), None);
}

#[test]
fn select_preview_takes_the_first_or_the_last() {
    let previews = vec![vec![1u8], vec![2u8, 2], vec![3u8, 3, 3]];
    assert_eq!(select_preview(&previews, PreviewMode::Low), Some(vec![1u8]));
    assert_eq!(select_preview(&previews, PreviewMode::High), Some(vec![3u8, 3, 3]));
    assert_eq!(select_preview(&vec![vec![9u8]], PreviewMode::Low), Some(vec![9u8]));
    assert_eq!(select_preview(&vec![vec![9u8]], PreviewMode::High), Some(vec![9u8]));
    assert_eq!(select_preview(&Vec::new(), PreviewMode::Low), None);
    assert_eq!(select_preview(&Vec::new(), PreviewMode::High), None);
}

#[test]
fn preview_response_gives_the_lowest_or_the_highest_level() {
    let small = jpeg(8, 8);
    let middle = jpeg(16, 16);
    let large = jpeg(32, 32);
    let file = ImageFile::Contents(container(&[small.clone(), middle, large.clone()]));
    assert_eq!(get_preview_image_response_for_adobe_image_id(&file, "7", "/p/a.raw", "lo"), Ok(small));
    assert_eq!(get_preview_image_response_for_adobe_image_id(&file, "7", "/p/a.raw", "hi"), Ok(large));
}

#[test]
fn preview_response_passes_over_levels_that_do_not_decode() {
    let small = jpeg(8, 8);
    let large = jpeg(32, 32);
    let file = ImageFile::Contents(container(&[b"broken".to_vec(), small.clone(), large.clone(), b"broken too".to_vec()]));
    assert_eq!(get_preview_image_response_for_adobe_image_id(&file, "7", "/p/a.raw", "lo"), Ok(small));
    assert_eq!(get_preview_image_response_for_adobe_image_id(&file, "7", "/p/a.raw", "hi"), Ok(large));
}

#[test]
fn preview_response_tells_the_failures_apart() {
    let id = "7".to_string();
    assert_eq!(
        get_preview_image_response_for_adobe_image_id(&ImageFile::NotFound, "7", "/p/a.raw", "lo"),
        Err(ReflexCommandError::PreviewMissing { image_id: id.clone(), image_path: "/p/a.raw".to_string() })
    );
    assert_eq!(
        get_preview_image_response_for_adobe_image_id(&ImageFile::Unreadable, "7", "/p/a.raw", "lo"),
        Err(ReflexCommandError::PreviewUnreadable { image_id: id.clone() })
    );
    assert_eq!(
        get_preview_image_response_for_adobe_image_id(&ImageFile::Contents(b"no levels".to_vec()), "7", "/p/a.raw", "lo"),
        Err(ReflexCommandError::NoImagesInPreview { image_id: id.clone() })
    );
    assert_eq!(
        get_preview_image_response_for_adobe_image_id(&ImageFile::Contents(Vec::new()), "7", "/p/a.raw", "hi"),
        Err(ReflexCommandError::NoImagesInPreview { image_id: id.clone() })
    );
    assert_eq!(
        get_preview_image_response_for_adobe_image_id(&ImageFile::Contents(container(&[b"junk".to_vec()])), "7", "/p/a.raw", "hi"),
        Err(ReflexCommandError::ImageNotProvided { image_id: id.clone() })
    );
    assert_eq!(
        get_preview_image_response_for_adobe_image_id(&ImageFile::Contents(container(&[jpeg(8, 8)])), "7", "/p/a.raw", "mid"),
        Err(ReflexCommandError::ImageNotProvided { image_id: id })
    );
}

#[test]
fn image_request_says_what_to_read() {
    assert_eq!(image_request("/p/a.raw", "adobe", "hi"), Ok(ImageRequest::Preview));
    assert_eq!(image_request("/p/a.raw", "adobe", "lo"), Ok(ImageRequest::Preview));
    assert_eq!(image_request("/p/a.jpg", "exif", "hi"), Ok(ImageRequest::File));
    assert_eq!(image_request("/p/a.jpg", "exif", "lo"), Ok(ImageRequest::File));
}

#[test]
fn image_request_fails_before_anything_is_read() {
    assert_eq!(
        image_request("/p/a.jpg", "exif", "mid"),
        Err(ReflexCommandError::BadMode { received: "mid".to_string() })
    );
    assert_eq!(
        image_request("/p/a.jpg", "tiff", "mid"),
        Err(ReflexCommandError::BadMode { received: "mid".to_string() })
    );
    assert_eq!(
        image_request("/p/a.jpg", "tiff", "hi"),
        Err(ReflexCommandError::BadImageType { image_type: "tiff".to_string(), image_path: "/p/a.jpg".to_string() })
    );
}

#[test]
fn image_of_kind_exif_is_the_file_as_it_is() {
    let bytes = b"any bytes at all".to_vec();
    assert_eq!(
        get_image_for_id("7", "/p/a.jpg", "exif", "hi", &ImageFile::Contents(bytes.clone())),
        Ok(bytes.clone())
    );
    assert_eq!(get_image_for_id("7", "/p/a.jpg", "exif", "lo", &ImageFile::Contents(bytes.clone())), Ok(bytes));
    assert_eq!(
        get_image_for_id("7", "/p/a.jpg", "exif", "lo", &ImageFile::Unreadable),
        Err(ReflexCommandError::ImageUnreadable { image_path: "/p/a.jpg".to_string() })
    );
    assert_eq!(
        get_image_for_id("7", "/p/a.jpg", "exif", "lo", &ImageFile::NotFound),
        Err(ReflexCommandError::ImageUnreadable { image_path: "/p/a.jpg".to_string() })
    );
}

#[test]
fn image_of_kind_adobe_comes_from_the_preview() {
    let small = jpeg(8, 8);
    let large = jpeg(24, 24);
    let file = ImageFile::Contents(container(&[small.clone(), large.clone()]));
    assert_eq!(get_image_for_id("7", "/p/a.raw", "adobe", "lo", &file), Ok(small));
    assert_eq!(get_image_for_id("7", "/p/a.raw", "adobe", "hi", &file), Ok(large));
    assert_eq!(
        get_image_for_id("7", "/p/a.raw", "adobe", "hi", &ImageFile::NotFound),
        Err(ReflexCommandError::PreviewMissing { image_id: "7".to_string(), image_path: "/p/a.raw".to_string() })
    );
    assert_eq!(
        get_image_for_id("7", "/p/a.raw", "adobe", "hi", &ImageFile::Unreadable),
        Err(ReflexCommandError::PreviewUnreadable { image_id: "7".to_string() })
    );
}

#[test]
fn image_request_failures_come_first() {
    let file = ImageFile::Contents(container(&[jpeg(8, 8)]));
    assert_eq!(
        get_image_for_id("7", "/p/a.raw", "adobe", "best", &file),
        Err(ReflexCommandError::BadMode { received: "best".to_string() })
    );
    assert_eq!(
        get_image_for_id("7", "/p/a.raw", "raw", "hi", &file),
        Err(ReflexCommandError::BadImageType { image_type: "raw".to_string(), image_path: "/p/a.raw".to_string() })
    );
}

#[test]
fn error_messages_name_the_circumstances_outermost_first() {
    let id = "7".to_string();
    let path = "/p/a.raw".to_string();
    assert_eq!(ReflexCommandError::from_message("plain").message(), "plain");
    assert_eq!(ReflexCommandError::from("plain"), ReflexCommandError::Message("plain".to_string()));
    assert_eq!(
        ReflexCommandError::BadMode { received: "mid".to_string() }.message(),
        "received mid: ArgumentError: mode must be 'hi' or 'lo'"
    );
    assert_eq!(
        ReflexCommandError::BadImageType { image_type: "tiff".to_string(), image_path: path.clone() }.message(),
        "for image_path /p/a.raw: for image_type tiff: Bad image_type"
    );
    assert_eq!(
        ReflexCommandError::PreviewMissing { image_id: id.clone(), image_path: path.clone() }.message(),
        "for image_path /p/a.raw: for image_id 7: Preview does not exist and raw file not accessible"
    );
    assert_eq!(
        ReflexCommandError::PreviewUnreadable { image_id: id.clone() }.message(),
        "for image_id 7: Failed to load image"
    );
    assert_eq!(
        ReflexCommandError::NoImagesInPreview { image_id: id.clone() }.message(),
        "for image_id 7: Found no images in preview file"
    );
    assert_eq!(
        ReflexCommandError::ImageNotProvided { image_id: id }.message(),
        "for image_id 7: Failed to provide image (despite image loaded)"
    );
    assert_eq!(
        ReflexCommandError::ImageUnreadable { image_path: path }.message(),
        "for image_path /p/a.raw: Failed to load image"
    );
    assert_eq!(
        ReflexCommandError::CatalogIncomplete.message(),
        "Failed to find the necessary components of the catalogue"
    );
}

#[test]
fn a_catalogue_with_a_missing_part_cannot_be_opened() {
    let dirs = LightroomConfDirs {
        root: "/cat".to_string(),
        cat_path: "/cat/c.lrcat".to_string(),
        metadata_db_path: "/cat/helper.db".to_string(),
        preview_db_path: "/cat/Previews.lrdata/previews.db".to_string(),
        preview_root: "/cat/Previews.lrdata".to_string(),
    };
    assert_eq!(found_catalog(Some(dirs.clone())), Ok(dirs));
    assert_eq!(found_catalog(None), Err(ReflexCommandError::CatalogIncomplete));
}
