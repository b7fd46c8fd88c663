use image::codecs::jpeg::JpegEncoder;
use image::ExtendedColorType;
use reflex::lrprev::{
    find_subsequence, get_jpeg_byte_segments_from_file, get_jpegs_from_file, keep_decodable,
    level_marker_bytes, locate_levels, Level,
};

fn jpeg(width: u32, height: u32) -> Vec<u8> {
    let pixels: Vec<u8> = (0..width * height * 3).map(|i| (i % 251) as u8).collect();
    let mut bytes = Vec::new();
    JpegEncoder::new(&mut bytes)
        .encode(&pixels, width, height, ExtendedColorType::Rgb8)
        .unwrap();
    bytes
}

fn container(prefix: &[u8], delimiter: u8, payloads: &[Vec<u8>]) -> Vec<u8> {
    let mut data = prefix.to_vec();
    for (i, payload) in payloads.iter().enumerate() {
        data.extend_from_slice(format!("level_{}", i + 1).as_bytes());
        data.push(delimiter);
        data.extend_from_slice(payload);
    }
    data
}

#[test]
fn find_subsequence_gives_the_first_offset() {
    assert_eq!(find_subsequence(b"abcabc", b"bc"), Some(1));
    assert_eq!(find_subsequence(b"abcabc", b"abc"), Some(0));
    assert_eq!(find_subsequence(b"abcabc", b"cab"), Some(2));
    assert_eq!(find_subsequence(b"abcabc", b"c"), Some(2));
}

#[test]
fn find_subsequence_misses_what_is_not_there() {
    assert_eq!(find_subsequence(b"abcabc", b"cc"), None);
    assert_eq!(find_subsequence(b"", b"a"), None);
    assert_eq!(find_subsequence(b"ab", b"abc"), None);
}

#[test]
fn find_subsequence_finds_a_term_at_the_end() {
    assert_eq!(find_subsequence(b"xxlevel_1", b"level_1"), Some(2));
    assert_eq!(find_subsequence(b"level_1", b"level_1"), Some(0));
}

#[test]
fn level_markers_are_ascii_text() {
    assert_eq!(level_marker_bytes(1), b"level_1".to_vec());
    assert_eq!(level_marker_bytes(5), b"level_5".to_vec());
    assert_eq!(level_marker_bytes(9), b"level_9".to_vec());
}

#[test]
fn round_trip_gives_back_the_payloads() {
    let payloads = vec![b"first".to_vec(), b"second payload".to_vec(), vec![0u8, 255, 7]];
    let data = container(b"header bytes", 0, &payloads);
    assert_eq!(get_jpeg_byte_segments_from_file(&data), payloads);
}

#[test]
fn round_trip_with_nine_levels() {
    let payloads: Vec<Vec<u8>> = (0..9u8).map(|i| vec![i; (i as usize) + 1]).collect();
    let data = container(b"", b'\n', &payloads);
    assert_eq!(get_jpeg_byte_segments_from_file(&data), payloads);
}

#[test]
fn round_trip_keeps_an_empty_payload() {
    let payloads = vec![Vec::new(), b"x".to_vec()];
    let data = container(b"p", 9, &payloads);
    assert_eq!(get_jpeg_byte_segments_from_file(&data), payloads);
}

#[test]
fn levels_are_located_at_their_offsets() {
    let data = container(b"abc", 0, &[b"one".to_vec(), b"two!".to_vec()]);
    // abc level_1 \0 one level_2 \0 two!
    assert_eq!(
        locate_levels(&data),
        vec![
            Level { marker_start: 3, image_start: 11 },
            Level { marker_start: 14, image_start: 22 },
        ]
    );
}

#[test]
fn a_tenth_level_is_not_looked_for() {
    let mut payloads: Vec<Vec<u8>> = (0..9u8).map(|i| vec![i + 1; 2]).collect();
    let mut data = container(b"", 0, &payloads);
    data.extend_from_slice(b"level_10\0tail");
    let last = payloads.last_mut().unwrap();
    last.extend_from_slice(b"level_10\0tail");
    let segments = get_jpeg_byte_segments_from_file(&data);
    assert_eq!(segments.len(), 9);
    assert_eq!(segments, payloads);
}

#[test]
fn no_marker_gives_an_empty_result() {
    assert_eq!(get_jpeg_byte_segments_from_file(b"no markers in here"), Vec::<Vec<u8>>::new());
    assert_eq!(get_jpeg_byte_segments_from_file(b""), Vec::<Vec<u8>>::new());
    assert_eq!(locate_levels(b"level_"), Vec::<Level>::new());
    assert!(get_jpegs_from_file(b"nothing").is_empty());
}

#[test]
fn a_missing_level_ends_the_scan() {
    // level 2 is missing: level 3 is never looked for
    let data = b"level_1\0aaalevel_3\0bbb".to_vec();
    assert_eq!(get_jpeg_byte_segments_from_file(&data), vec![b"aaalevel_3\0bbb".to_vec()]);
    // without level 1 nothing is found, whatever follows
    let data = b"level_2\0aaalevel_3\0bbb".to_vec();
    assert!(get_jpeg_byte_segments_from_file(&data).is_empty());
}

#[test]
fn markers_are_looked_for_in_order() {
    // level 2 before level 1 does not count
    let data = b"level_2\0xxlevel_1\0yy".to_vec();
    assert_eq!(get_jpeg_byte_segments_from_file(&data), vec![b"yy".to_vec()]);
}

#[test]
fn truncated_mid_marker_keeps_the_levels_before() {
    let payloads = vec![b"first".to_vec(), b"second".to_vec(), b"third".to_vec()];
    let data = container(b"head", 0, &payloads);
    let third_marker = find_subsequence(&data, b"level_3").unwrap();
    for cut in third_marker + 1..third_marker + 7 {
        let segments = get_jpeg_byte_segments_from_file(&data[..cut]);
        assert_eq!(segments.len(), 2);
        assert_eq!(segments[0], b"first".to_vec());
        let mut last = b"second".to_vec();
        last.extend_from_slice(&data[third_marker..cut]);
        assert_eq!(segments[1], last);
    }
}

#[test]
fn truncated_inside_the_first_marker_gives_nothing() {
    let data = container(b"head", 0, &[b"first".to_vec()]);
    for cut in 0..4 + 7 {
        assert!(get_jpeg_byte_segments_from_file(&data[..cut]).is_empty());
    }
}

#[test]
fn a_marker_at_the_very_end_gives_an_empty_image() {
    assert_eq!(get_jpeg_byte_segments_from_file(b"xxlevel_1"), vec![Vec::<u8>::new()]);
    assert_eq!(
        locate_levels(b"xxlevel_1"),
        vec![Level { marker_start: 2, image_start: 9 }]
    );
    assert_eq!(get_jpeg_byte_segments_from_file(b"xxlevel_1\0"), vec![Vec::<u8>::new()]);
    assert_eq!(
        locate_levels(b"xxlevel_1\0"),
        vec![Level { marker_start: 2, image_start: 10 }]
    );
}

#[test]
fn the_byte_behind_a_marker_is_skipped_whatever_it_is() {
    for delimiter in [0u8, b'\n', b'l', 255] {
        let data = container(b"", delimiter, &[b"abc".to_vec(), b"def".to_vec()]);
        assert_eq!(
            get_jpeg_byte_segments_from_file(&data),
            vec![b"abc".to_vec(), b"def".to_vec()]
        );
    }
}

#[test]
fn images_come_back_in_ascending_level_order() {
    let payloads = vec![jpeg(8, 8), jpeg(16, 8), jpeg(32, 24)];
    let data = container(b"META", 0, &payloads);
    assert_eq!(get_jpeg_byte_segments_from_file(&data), payloads);
    let images = get_jpegs_from_file(&data);
    assert_eq!(images.len(), 3);
    let sizes: Vec<(u32, u32)> = images.iter().map(|i| (i.width(), i.height())).collect();
    assert_eq!(sizes, vec![(8, 8), (16, 8), (32, 24)]);
}

#[test]
fn a_level_that_does_not_decode_is_dropped() {
    let payloads = vec![jpeg(8, 8), b"this is no image".to_vec(), jpeg(32, 24)];
    let data = container(b"", 0, &payloads);
    let images = get_jpegs_from_file(&data);
    let sizes: Vec<(u32, u32)> = images.iter().map(|i| (i.width(), i.height())).collect();
    assert_eq!(sizes, vec![(8, 8), (32, 24)]);
    assert_eq!(
        keep_decodable(payloads.clone()),
        vec![payloads[0].clone(), payloads[2].clone()]
    );
}

#[test]
fn levels_without_any_image_give_no_image() {
    let data = container(b"", 0, &[b"junk".to_vec(), Vec::new()]);
    assert_eq!(get_jpeg_byte_segments_from_file(&data).len(), 2);
    assert!(get_jpegs_from_file(&data).is_empty());
    assert!(keep_decodable(vec![b"junk".to_vec(), Vec::new()]).is_empty());
}
