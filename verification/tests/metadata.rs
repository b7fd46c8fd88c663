use reflex::exif::{
    find_entry, ExifEntry, ExifTag, IRational, RealValue, TagValue, URational, APERTURE_VALUE,
    DATE_TIME_ORIGINAL, EXPOSURE_PROGRAM, EXPOSURE_TIME, FLASH, FOCAL_LENGTH, ISO_SPEED_RATINGS,
    LENS_MODEL, METERING_MODE, MODEL, SHUTTER_SPEED_VALUE,
};
use reflex::image_folder::{
    coerce_value, get_exact_ratio_from_tags, get_f64_from_tags, get_string_from_tags,
    get_u16_from_tags, get_u8_from_tags, make_image_data_from_exif, read_file_with_rexif,
    DataVariant, ImagePaths, TAGS,
};
use reflex::xmp::{embedded_rating, XmpProperty};

fn entry(code: u32, value: TagValue) -> ExifEntry {
    ExifEntry { tag: ExifTag::new(code), value }
}

fn ascii(text: &str) -> TagValue {
    TagValue::Ascii(text.to_string())
}

fn rating(value: &str) -> XmpProperty {
    XmpProperty {
        schema_ns: "http://ns.adobe.com/xap/1.0/".to_string(),
        name: "xmp:Rating".to_string(),
        value: value.to_string(),
    }
}

fn sample_tags() -> Vec<ExifEntry> {
    vec![
        entry(0x010f, ascii("ACME")),
        entry(MODEL, ascii("ACME One")),
        entry(EXPOSURE_TIME, TagValue::URational(vec![URational { numerator: 1, denominator: 500 }])),
        entry(EXPOSURE_PROGRAM, TagValue::U16(vec![3])),
        entry(ISO_SPEED_RATINGS, TagValue::U16(vec![200])),
        entry(DATE_TIME_ORIGINAL, ascii("2024:05:17 10:11:12")),
        entry(SHUTTER_SPEED_VALUE, TagValue::IRational(vec![IRational { numerator: 8965784, denominator: 1000000 }])),
        entry(APERTURE_VALUE, TagValue::URational(vec![URational { numerator: 4, denominator: 1 }])),
        entry(METERING_MODE, TagValue::U16(vec![5])),
        entry(FLASH, TagValue::U16(vec![16])),
        entry(FOCAL_LENGTH, TagValue::URational(vec![URational { numerator: 350, denominator: 10 }])),
        entry(LENS_MODEL, ascii("35mm F1.8")),
    ]
}

#[test]
fn tag_codes_are_those_of_the_exif_standard() {
    assert_eq!(MODEL, 0x0110);
    assert_eq!(EXPOSURE_TIME, 0x829a);
    assert_eq!(EXPOSURE_PROGRAM, 0x8822);
    assert_eq!(ISO_SPEED_RATINGS, 0x8827);
    assert_eq!(DATE_TIME_ORIGINAL, 0x9003);
    assert_eq!(SHUTTER_SPEED_VALUE, 0x9201);
    assert_eq!(APERTURE_VALUE, 0x9202);
    assert_eq!(METERING_MODE, 0x9207);
    assert_eq!(FLASH, 0x9209);
    assert_eq!(FOCAL_LENGTH, 0x920a);
    assert_eq!(LENS_MODEL, 0xa434);
    assert_eq!(
        TAGS,
        [
            DATE_TIME_ORIGINAL,
            MODEL,
            LENS_MODEL,
            SHUTTER_SPEED_VALUE,
            APERTURE_VALUE,
            FOCAL_LENGTH,
            ISO_SPEED_RATINGS,
            EXPOSURE_PROGRAM,
            METERING_MODE,
            FLASH
        ]
    );
}

#[test]
fn find_entry_gives_the_first_match() {
    let tags = vec![
        entry(MODEL, ascii("first")),
        entry(FLASH, TagValue::U16(vec![1])),
        entry(MODEL, ascii("second")),
    ];
    assert_eq!(find_entry(&tags, ExifTag::new(MODEL)), Some(&tags[0]));
    assert_eq!(find_entry(&tags, ExifTag::new(FLASH)), Some(&tags[1]));
    assert_eq!(find_entry(&tags, ExifTag::new(LENS_MODEL)), None);
    assert_eq!(find_entry(&Vec::new(), ExifTag::new(MODEL)), None);
}

#[test]
fn get_string_takes_text_only() {
    let tags = sample_tags();
    assert_eq!(get_string_from_tags(&tags, ExifTag::new(MODEL)), Some("ACME One".to_string()));
    assert_eq!(get_string_from_tags(&tags, ExifTag::new(FLASH)), None);
    assert_eq!(get_string_from_tags(&tags, ExifTag::new(0x9999)), None);
    assert_eq!(get_string_from_tags(&Vec::new(), ExifTag::new(MODEL)), None);
}

#[test]
fn get_string_looks_at_the_first_entry_only() {
    let tags = vec![entry(MODEL, TagValue::U16(vec![1])), entry(MODEL, ascii("late"))];
    assert_eq!(get_string_from_tags(&tags, ExifTag::new(MODEL)), None);
}

#[test]
fn get_u8_is_strict_about_the_type() {
    let tags = vec![
        entry(1, TagValue::U8(vec![7, 8])),
        entry(2, TagValue::U16(vec![7])),
        entry(3, TagValue::U8(vec![])),
        entry(4, TagValue::I8(vec![7])),
        entry(5, TagValue::Undefined(vec![7], true)),
    ];
    assert_eq!(get_u8_from_tags(&tags, ExifTag::new(1)), Some(7));
    assert_eq!(get_u8_from_tags(&tags, ExifTag::new(2)), None);
    assert_eq!(get_u8_from_tags(&tags, ExifTag::new(3)), None);
    assert_eq!(get_u8_from_tags(&tags, ExifTag::new(4)), None);
    assert_eq!(get_u8_from_tags(&tags, ExifTag::new(5)), None);
    assert_eq!(get_u8_from_tags(&tags, ExifTag::new(6)), None);
}

#[test]
fn get_u16_is_strict_about_the_type() {
    let tags = vec![
        entry(1, TagValue::U16(vec![200, 400])),
        entry(2, TagValue::U8(vec![7])),
        entry(3, TagValue::U16(vec![])),
        entry(4, TagValue::U32(vec![7])),
        entry(5, TagValue::I16(vec![7])),
    ];
    assert_eq!(get_u16_from_tags(&tags, ExifTag::new(1)), Some(200));
    assert_eq!(get_u16_from_tags(&tags, ExifTag::new(2)), None);
    assert_eq!(get_u16_from_tags(&tags, ExifTag::new(3)), None);
    assert_eq!(get_u16_from_tags(&tags, ExifTag::new(4)), None);
    assert_eq!(get_u16_from_tags(&tags, ExifTag::new(5)), None);
    assert_eq!(get_u16_from_tags(&tags, ExifTag::new(6)), None);
}

#[test]
fn get_f64_takes_the_four_real_types() {
    let half = URational { numerator: 1, denominator: 2 };
    let minus = IRational { numerator: -3, denominator: 4 };
    let tags = vec![
        entry(1, TagValue::F32(vec![1.5f32.to_bits(), 0])),
        entry(2, TagValue::F64(vec![2.25f64.to_bits()])),
        entry(3, TagValue::IRational(vec![minus])),
        entry(4, TagValue::URational(vec![half, URational { numerator: 9, denominator: 9 }])),
        entry(5, TagValue::U16(vec![1])),
        entry(6, ascii("1.5")),
        entry(7, TagValue::URational(vec![])),
        entry(8, TagValue::F32(vec![])),
        entry(9, TagValue::F64(vec![])),
        entry(10, TagValue::IRational(vec![])),
    ];
    assert_eq!(get_f64_from_tags(&tags, ExifTag::new(1)), Some(RealValue::Single(1.5f32.to_bits())));
    assert_eq!(get_f64_from_tags(&tags, ExifTag::new(2)), Some(RealValue::Double(2.25f64.to_bits())));
    assert_eq!(get_f64_from_tags(&tags, ExifTag::new(3)), Some(RealValue::Signed(minus)));
    assert_eq!(get_f64_from_tags(&tags, ExifTag::new(4)), Some(RealValue::Unsigned(half)));
    for absent in [5, 6, 7, 8, 9, 10, 11] {
        assert_eq!(get_f64_from_tags(&tags, ExifTag::new(absent)), None);
    }
}

#[test]
fn exact_ratio_takes_unsigned_rationals_only() {
    let tags = vec![
        entry(1, TagValue::URational(vec![URational { numerator: 1, denominator: 500 }])),
        entry(2, TagValue::IRational(vec![IRational { numerator: 1, denominator: 500 }])),
        entry(3, TagValue::F64(vec![0.002f64.to_bits()])),
        entry(4, TagValue::URational(vec![])),
    ];
    assert_eq!(get_exact_ratio_from_tags(&tags, ExifTag::new(1)), Some((1, 500)));
    assert_eq!(get_exact_ratio_from_tags(&tags, ExifTag::new(2)), None);
    assert_eq!(get_exact_ratio_from_tags(&tags, ExifTag::new(3)), None);
    assert_eq!(get_exact_ratio_from_tags(&tags, ExifTag::new(4)), None);
    assert_eq!(get_exact_ratio_from_tags(&tags, ExifTag::new(5)), None);
}

#[test]
fn exposure_one_five_hundredth_at_iso_200() {
    let tags = vec![
        entry(EXPOSURE_TIME, TagValue::URational(vec![URational { numerator: 1, denominator: 500 }])),
        entry(ISO_SPEED_RATINGS, TagValue::U16(vec![200])),
    ];
    let record = make_image_data_from_exif(None, "a.jpg".to_string(), &tags, &None);
    assert_eq!(record.shutter_speed_value, Some((1, 500)));
    assert_eq!(record.iso_speed_rating, Some(200));
}

#[test]
fn record_matches_the_tag_set() {
    let record = make_image_data_from_exif(
        Some("/photos".to_string()),
        "/photos/a.jpg".to_string(),
        &sample_tags(),
        &Some(vec![rating("4")]),
    );
    assert_eq!(record.folder, Some("/photos".to_string()));
    assert_eq!(record.filename, "/photos/a.jpg");
    assert_eq!(record.datetime_original, Some("2024:05:17 10:11:12".to_string()));
    assert_eq!(record.model, Some("ACME One".to_string()));
    assert_eq!(record.lens_model, Some("35mm F1.8".to_string()));
    assert_eq!(record.shutter_speed_value, Some((1, 500)));
    assert_eq!(
        record.aperture_value,
        Some(RealValue::Unsigned(URational { numerator: 4, denominator: 1 }))
    );
    assert_eq!(
        record.focal_length,
        Some(RealValue::Unsigned(URational { numerator: 350, denominator: 10 }))
    );
    assert_eq!(record.iso_speed_rating, Some(200));
    assert_eq!(record.exposure_program, Some(3));
    assert_eq!(record.metering_mode, Some(5));
    assert_eq!(record.flash, Some(16));
    assert_eq!(record.embedded_rating, Some(4));
}

#[test]
fn record_of_an_empty_tag_set_has_the_names_only() {
    let record = make_image_data_from_exif(None, "notes.txt".to_string(), &Vec::new(), &None);
    assert_eq!(record.folder, None);
    assert_eq!(record.filename, "notes.txt");
    assert_eq!(record.datetime_original, None);
    assert_eq!(record.model, None);
    assert_eq!(record.lens_model, None);
    assert_eq!(record.shutter_speed_value, None);
    assert_eq!(record.aperture_value, None);
    assert_eq!(record.focal_length, None);
    assert_eq!(record.iso_speed_rating, None);
    assert_eq!(record.exposure_program, None);
    assert_eq!(record.metering_mode, None);
    assert_eq!(record.flash, None);
    assert_eq!(record.embedded_rating, None);
}

#[test]
fn shutter_speed_is_absent_unless_the_exposure_time_is_an_unsigned_rational() {
    let tags = vec![entry(EXPOSURE_TIME, TagValue::IRational(vec![IRational { numerator: 1, denominator: 500 }]))];
    let record = make_image_data_from_exif(None, "a.jpg".to_string(), &tags, &None);
    assert_eq!(record.shutter_speed_value, None);
    let tags = vec![entry(SHUTTER_SPEED_VALUE, TagValue::URational(vec![URational { numerator: 1, denominator: 500 }]))];
    let record = make_image_data_from_exif(None, "a.jpg".to_string(), &tags, &None);
    assert_eq!(record.shutter_speed_value, None);
}

#[test]
fn wrongly_typed_tags_are_absent_from_the_record() {
    let tags = vec![
        entry(MODEL, TagValue::U16(vec![1])),
        entry(ISO_SPEED_RATINGS, TagValue::U32(vec![200])),
        entry(APERTURE_VALUE, TagValue::U16(vec![4])),
        entry(FLASH, ascii("on")),
    ];
    let record = make_image_data_from_exif(None, "a.jpg".to_string(), &tags, &None);
    assert_eq!(record.model, None);
    assert_eq!(record.iso_speed_rating, None);
    assert_eq!(record.aperture_value, None);
    assert_eq!(record.flash, None);
}

#[test]
fn embedded_rating_reads_the_first_rating() {
    let other = XmpProperty {
        schema_ns: "http://ns.adobe.com/xap/1.0/".to_string(),
        name: "xmp:CreatorTool".to_string(),
        value: "5".to_string(),
    };
    let elsewhere = XmpProperty {
        schema_ns: "http://purl.org/dc/elements/1.1/".to_string(),
        name: "xmp:Rating".to_string(),
        value: "5".to_string(),
    };
    assert_eq!(embedded_rating(&Some(vec![other.clone(), elsewhere.clone(), rating("3")])), Some(3));
    assert_eq!(embedded_rating(&Some(vec![rating("-1"), rating("3")])), Some(-1));
    assert_eq!(embedded_rating(&Some(vec![rating("three"), rating("3")])), None);
    assert_eq!(embedded_rating(&Some(vec![other, elsewhere])), None);
    assert_eq!(embedded_rating(&Some(Vec::new())), None);
    assert_eq!(embedded_rating(&None), None);
    assert_eq!(embedded_rating(&Some(vec![rating("40000")])), None);
    assert_eq!(embedded_rating(&Some(vec![rating("")])), None);
}

#[test]
fn coerce_widens_integers() {
    assert_eq!(coerce_value(&TagValue::U8(vec![255, 1])), Some(DataVariant::Integer(255)));
    assert_eq!(coerce_value(&TagValue::U16(vec![65535])), Some(DataVariant::Integer(65535)));
    assert_eq!(coerce_value(&TagValue::U32(vec![4294967295])), Some(DataVariant::Integer(4294967295)));
    assert_eq!(coerce_value(&TagValue::I8(vec![-128])), Some(DataVariant::Integer(-128)));
    assert_eq!(coerce_value(&TagValue::I16(vec![-32768])), Some(DataVariant::Integer(-32768)));
    assert_eq!(coerce_value(&TagValue::I32(vec![-2147483648])), Some(DataVariant::Integer(-2147483648)));
}

#[test]
fn coerce_sorts_reals_by_their_type() {
    let unsigned = URational { numerator: 7, denominator: 2 };
    let signed = IRational { numerator: -7, denominator: 2 };
    assert_eq!(
        coerce_value(&TagValue::F32(vec![1.5f32.to_bits()])),
        Some(DataVariant::SignedRational(RealValue::Single(1.5f32.to_bits())))
    );
    assert_eq!(
        coerce_value(&TagValue::F64(vec![1.5f64.to_bits()])),
        Some(DataVariant::UnsignedRational(RealValue::Double(1.5f64.to_bits())))
    );
    assert_eq!(
        coerce_value(&TagValue::IRational(vec![signed])),
        Some(DataVariant::SignedRational(RealValue::Signed(signed)))
    );
    assert_eq!(
        coerce_value(&TagValue::URational(vec![unsigned])),
        Some(DataVariant::UnsignedRational(RealValue::Unsigned(unsigned)))
    );
}

#[test]
fn coerce_keeps_text_and_drops_the_rest() {
    assert_eq!(coerce_value(&ascii("text")), Some(DataVariant::Ascii("text".to_string())));
    assert_eq!(coerce_value(&TagValue::Undefined(vec![1], false)), None);
    assert_eq!(coerce_value(&TagValue::Unknown(vec![1], true)), None);
    assert_eq!(coerce_value(&TagValue::Invalid(vec![1], true, 3, 9)), None);
    assert_eq!(coerce_value(&TagValue::U8(vec![])), None);
    assert_eq!(coerce_value(&TagValue::I32(vec![])), None);
    assert_eq!(coerce_value(&TagValue::F32(vec![])), None);
    assert_eq!(coerce_value(&TagValue::URational(vec![])), None);
}

#[test]
fn read_file_keeps_the_identity_of_an_undecoded_file() {
    let (paths, data) = read_file_with_rexif(&"/photos".to_string(), &"/photos/notes.txt".to_string(), None);
    assert_eq!(
        paths,
        ImagePaths { folder: "/photos".to_string(), filepath: "/photos/notes.txt".to_string() }
    );
    assert!(data.is_none());
}

#[test]
fn read_file_summarises_the_ten_tags() {
    let tags = sample_tags();
    let (paths, data) = read_file_with_rexif(&"/photos".to_string(), &"/photos/a.jpg".to_string(), Some(tags.clone()));
    assert_eq!(paths.folder, "/photos");
    assert_eq!(paths.filepath, "/photos/a.jpg");
    let data = data.unwrap();
    assert_eq!(data.tags, tags);
    assert_eq!(data.data.len(), 10);
    assert_eq!(data.data[&MODEL], Some(DataVariant::Ascii("ACME One".to_string())));
    assert_eq!(data.data[&ISO_SPEED_RATINGS], Some(DataVariant::Integer(200)));
    assert_eq!(
        data.data[&SHUTTER_SPEED_VALUE],
        Some(DataVariant::SignedRational(RealValue::Signed(IRational {
            numerator: 8965784,
            denominator: 1000000
        })))
    );
    assert_eq!(
        data.data[&APERTURE_VALUE],
        Some(DataVariant::UnsignedRational(RealValue::Unsigned(URational { numerator: 4, denominator: 1 })))
    );
    // the exposure time is no tag of the summary
    assert!(!data.data.contains_key(&EXPOSURE_TIME));
}

#[test]
fn read_file_marks_missing_tags_as_absent() {
    let tags = vec![entry(MODEL, ascii("ACME One")), entry(FLASH, TagValue::Undefined(vec![1], true))];
    let (_, data) = read_file_with_rexif(&"f".to_string(), &"f/a.jpg".to_string(), Some(tags));
    let data = data.unwrap();
    assert_eq!(data.data.len(), 10);
    for code in TAGS {
        if code == MODEL {
            assert_eq!(data.data[&code], Some(DataVariant::Ascii("ACME One".to_string())));
        } else {
            assert_eq!(data.data[&code], None);
        }
    }
}
