use reflex::text::{parse_i16, parse_u64, same_text};

#[test]
fn parse_i16_reads_numbers_in_range() {
    assert_eq!(parse_i16("0"), Some(0));
    assert_eq!(parse_i16("5"), Some(5));
    assert_eq!(parse_i16("+5"), Some(5));
    assert_eq!(parse_i16("-5"), Some(-5));
    assert_eq!(parse_i16("-0"), Some(0));
    assert_eq!(parse_i16("007"), Some(7));
    assert_eq!(parse_i16("32767"), Some(32767));
    assert_eq!(parse_i16("-32768"), Some(-32768));
    assert_eq!(parse_i16("000000000000000000032767"), Some(32767));
}

#[test]
fn parse_i16_rejects_everything_else() {
    for text in [
        "", "+", "-", " 5", "5 ", "5.0", "1_000", "32768", "-32768 ", "-32769", "99999", "999999999999999999999",
        "--5", "+-5", "5-", "0x10", "a", "٣",
    ] {
        assert_eq!(parse_i16(text), None, "{:?}", text);
    }
}

#[test]
fn parse_i16_agrees_with_the_standard_library() {
    let mut samples: Vec<String> = Vec::new();
    for n in -33000i32..=33000 {
        if n % 7 == 0 || n.abs() > 32700 || n.abs() < 20 {
            samples.push(format!("{}", n));
            samples.push(format!("+{}", n));
            samples.push(format!("0{}", n));
        }
    }
    for text in ["", "+", "-", "-0", "+0", "00", "1a", "a1", " 1", "1 ", "१", "+-1", "65536", "-65536"] {
        samples.push(text.to_string());
    }
    for text in samples {
        assert_eq!(parse_i16(&text), text.parse::<i16>().ok(), "{:?}", text);
    }
}

#[test]
fn parse_u64_reads_numbers_in_range() {
    assert_eq!(parse_u64("0"), Some(0));
    assert_eq!(parse_u64("+17"), Some(17));
    assert_eq!(parse_u64("0017"), Some(17));
    assert_eq!(parse_u64("18446744073709551615"), Some(u64::MAX));
}

#[test]
fn parse_u64_rejects_everything_else() {
    for text in ["", "+", "-", "-0", "-1", "18446744073709551616", "99999999999999999999999", "1 ", " 1", "1e3", "abc"] {
        assert_eq!(parse_u64(text), None, "{:?}", text);
    }
}

#[test]
fn parse_u64_agrees_with_the_standard_library() {
    let mut samples: Vec<String> = Vec::new();
    let mut n: u128 = 1;
    while n < 40_000_000_000_000_000_000 {
        for delta in [0u128, 1, 2] {
            samples.push(format!("{}", n + delta));
            samples.push(format!("+{}", n - delta.min(n)));
            samples.push(format!("-{}", n));
            samples.push(format!("000{}", n));
        }
        n = n * 3 + 1;
    }
    for text in ["18446744073709551614", "18446744073709551615", "18446744073709551616", "18446744073709551617"] {
        samples.push(text.to_string());
    }
    for text in samples {
        assert_eq!(parse_u64(&text), text.parse::<u64>().ok(), "{:?}", text);
    }
}

#[test]
fn same_text_compares_by_content() {
    assert!(same_text("hi", "hi"));
    assert!(same_text("", ""));
    assert!(!same_text("hi", "lo"));
    assert!(!same_text("hi", "hi "));
    assert!(!same_text("hi", "Hi"));
}
