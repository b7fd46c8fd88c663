use reflex::catalog::{
    chars_of, get_library_path_from_config_file, is_white_space_char, library_path_from_line,
    preferences_path, text_contains,
};

fn by_the_standard_library(line: &str) -> String {
    let parts = line.split("=").collect::<Vec<&str>>();
    parts[1..].join("=").trim().trim_end_matches(",").trim_matches('"').to_owned()
}

#[test]
fn white_space_is_what_unicode_says() {
    for code in 0..=0x10ffffu32 {
        if let Some(c) = char::from_u32(code) {
            assert_eq!(is_white_space_char(c), c.is_whitespace(), "{:x}", code);
        }
    }
}

#[test]
fn chars_of_lists_the_characters() {
    assert_eq!(chars_of(""), Vec::<char>::new());
    assert_eq!(chars_of("aé=\u{3000}"), vec!['a', 'é', '=', '\u{3000}']);
}

#[test]
fn text_contains_finds_a_part() {
    let text = chars_of("\tlibraryToLoad20 = \"x\",");
    assert!(text_contains(&text, &chars_of("libraryToLoad20")));
    assert!(text_contains(&text, &chars_of("")));
    assert!(text_contains(&text, &chars_of(",")));
    assert!(text_contains(&text, &text.clone()));
    assert!(!text_contains(&text, &chars_of("libraryToLoad21")));
    assert!(!text_contains(&chars_of("abc"), &chars_of("abcd")));
    assert!(text_contains(&chars_of(""), &chars_of("")));
    assert!(!text_contains(&chars_of(""), &chars_of("a")));
}

#[test]
fn library_path_is_what_stands_behind_the_equals_sign() {
    assert_eq!(
        library_path_from_line("\tlibraryToLoad20 = \"C:\\\\Users\\\\me\\\\Pictures\\\\Cat.lrcat\","),
        "C:\\\\Users\\\\me\\\\Pictures\\\\Cat.lrcat"
    );
    assert_eq!(library_path_from_line("libraryToLoad20=\"/a=b/c.lrcat\","), "/a=b/c.lrcat");
    assert_eq!(library_path_from_line("key = value"), "value");
    assert_eq!(library_path_from_line("key"), "");
    assert_eq!(library_path_from_line(""), "");
    assert_eq!(library_path_from_line("="), "");
    assert_eq!(library_path_from_line("key = \"\"\"x\"\",,, \u{a0}"), "x");
    assert_eq!(library_path_from_line("key = \" x \","), " x ");
    assert_eq!(library_path_from_line("key = ,\"x\""), ",\"x");
    assert_eq!(library_path_from_line("key = \"x\", ,"), "x\", ");
}

#[test]
fn library_path_agrees_with_the_standard_library() {
    let pieces = ["", " ", "\t", "=", ",", "\"", "a", "é", "\u{2003}", "k = ", "\"p\",", "==", ", ,", "\" \""];
    let mut lines: Vec<String> = vec![String::new()];
    for _ in 0..3 {
        let mut longer = Vec::new();
        for line in &lines {
            for piece in pieces {
                longer.push(format!("{}{}", line, piece));
            }
        }
        lines = longer;
    }
    assert!(lines.len() > 2000);
    for line in lines {
        assert_eq!(library_path_from_line(&line), by_the_standard_library(&line), "{:?}", line);
    }
}

#[test]
fn the_first_line_with_the_key_names_the_catalogue() {
    let lines: Vec<String> = [
        "prefs = {",
        "\totherKey = \"/nowhere\",",
        "\tlibraryToLoad20 = \"/photos/Main.lrcat\",",
        "\trecentLibraries20 = { libraryToLoad20 = \"/photos/Old.lrcat\" },",
        "}",
    ]
    .iter()
    .map(|line| line.to_string())
    .collect();
    assert_eq!(get_library_path_from_config_file(&lines), Some("/photos/Main.lrcat".to_string()));
    assert_eq!(get_library_path_from_config_file(&lines[..2].to_vec()), None);
    assert_eq!(get_library_path_from_config_file(&Vec::new()), None);
    assert_eq!(
        get_library_path_from_config_file(&vec!["xlibraryToLoad20x".to_string()]),
        Some(String::new())
    );
}

#[test]
fn preferences_lie_below_the_application_data() {
    assert_eq!(
        preferences_path("C:/Users/me/AppData/Roaming"),
        "C:/Users/me/AppData/Roaming/Adobe/Lightroom/Preferences/Lightroom Classic CC 7 Preferences.agprefs"
    );
    assert_eq!(
        preferences_path(""),
        "/Adobe/Lightroom/Preferences/Lightroom Classic CC 7 Preferences.agprefs"
    );
}
