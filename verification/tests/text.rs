use parseargs::matching::optional_str_to_bool;
use parseargs::opt_def::parse;
use parseargs::text::{
    int_to_text, is_ascii, is_ascii_control, is_ascii_whitespace, is_letter, is_letter_or_digit,
    is_space, join, lowercase, space_run, str_eq, trim,
};

/// Every character up to the end of the Latin, Greek and Cyrillic blocks,
/// and some from beyond.
fn sample_chars() -> Vec<char> {
    let mut chars: Vec<char> = (0u32..0x530).filter_map(char::from_u32).collect();
    chars.extend(['\u{1680}', '\u{2003}', '\u{2028}', '\u{3000}', '京', '٣', '😀', 'ǅ']);
    chars
}

#[test]
fn letters_are_what_the_standard_library_counts_as_alphabetic() {
    for c in sample_chars() {
        assert_eq!(c.is_alphabetic(), is_letter(c), "{:?}", c);
    }
}

#[test]
fn letters_and_digits_are_what_the_standard_library_counts_as_alphanumeric() {
    for c in sample_chars() {
        assert_eq!(c.is_alphanumeric(), is_letter_or_digit(c), "{:?}", c);
    }
}

#[test]
fn white_space_is_what_the_standard_library_counts_as_white_space() {
    for c in sample_chars() {
        assert_eq!(c.is_whitespace(), is_space(c), "{:?}", c);
    }
}

#[test]
fn ascii_classes_are_those_of_the_standard_library() {
    for c in sample_chars() {
        assert_eq!(c.is_ascii(), is_ascii(c), "{:?}", c);
        assert_eq!(c.is_ascii_whitespace(), is_ascii_whitespace(c), "{:?}", c);
        assert_eq!(c.is_ascii_control(), is_ascii_control(c), "{:?}", c);
    }
}

#[test]
fn lower_case_is_that_of_the_standard_library() {
    for text in [
        "",
        "true",
        "TRUE",
        "YeS",
        "A-Z_09 @[`{",
        "ÄÖÜ",
        "Straße",
        "ΟΔΥΣΣΕΥΣ",
        "İstanbul",
        "mixed Äscii",
    ] {
        assert_eq!(text.to_lowercase(), lowercase(text), "{:?}", text);
    }
    let all_ascii: String = (0u8..128).map(char::from).collect();
    assert_eq!(all_ascii.to_lowercase(), lowercase(&all_ascii));
}

#[test]
fn trim_is_that_of_the_standard_library() {
    for text in ["", " ", "a", " a b ", "\t\u{b}x\u{c}\r\n", "\u{a0}x\u{2003}", "\u{1c}x\u{1f}"] {
        assert_eq!(text.trim(), trim(text), "{:?}", text);
    }
}

#[test]
fn truth_values_in_capital_letters() {
    assert_eq!(Ok(true), optional_str_to_bool(Some("YES"), false));
    assert_eq!(Ok(false), optional_str_to_bool(Some("\u{b}FALSE "), true));
}

#[test]
fn names_in_plain_letters_are_read_whole() {
    let list = parse(&"d#debug".to_string()).unwrap();
    assert_eq!("debug", list[0].get_target_name());
}

#[test]
fn small_helpers_give_exact_texts() {
    assert_eq!("   ", space_run(3));
    assert_eq!("", space_run(0));
    assert_eq!("a, b, c", join(&vec!["a".to_string(), "b".to_string(), "c".to_string()], ", "));
    assert_eq!("", join(&vec![], ", "));
    assert_eq!("-120", int_to_text(-120));
    assert!(str_eq("abc", "abc"));
    assert!(!str_eq("abc", "abd"));
    assert!(!str_eq("abc", "ab"));
}
