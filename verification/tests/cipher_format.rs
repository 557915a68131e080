use uniaz_cipher::{capitalize_first, format_cipher, is_chinese, preprocess_cipher, try_split_codes};

#[test]
fn test_format_space() {
    let parts = vec!["abcd".to_string(), " ".to_string(), "efgh".to_string()];
    assert_eq!(format_cipher(&parts, "space"), "abcd efgh");
}

#[test]
fn test_format_4letter() {
    let parts = vec!["abcd".to_string(), "efgh".to_string()];
    assert_eq!(format_cipher(&parts, "4-letter"), "abcdefgh");
}

#[test]
fn test_format_pascal() {
    let parts = vec!["abcd".to_string(), "efgh".to_string()];
    assert_eq!(format_cipher(&parts, "pascal"), "AbcdEfgh");
}

#[test]
fn test_format_camel() {
    let parts = vec!["abcd".to_string(), "efgh".to_string()];
    assert_eq!(format_cipher(&parts, "camel"), "abcdEfgh");
}

#[test]
fn test_format_first_upper() {
    let parts = vec![
        "abcd".to_string(),
        "efgh".to_string(),
        " ".to_string(),
        "ijkl".to_string(),
    ];
    assert_eq!(format_cipher(&parts, "first-upper"), "Abcdefgh Ijkl");
}

#[test]
fn test_preprocess_space_separated() {
    let result = preprocess_cipher("abcd efgh");
    assert_eq!(result, vec!["abcd", " ", "efgh"]);
}

#[test]
fn test_preprocess_pascal() {
    let result = preprocess_cipher("AbcdEfgh");
    assert_eq!(result, vec!["abcd", "efgh"]);
}

#[test]
fn test_preprocess_empty() {
    let result = preprocess_cipher("");
    assert!(result.is_empty());
}

#[test]
fn test_format_camel_after_space_literal() {
    let parts = vec![
        "abcd".to_string(),
        "efgh".to_string(),
        " ".to_string(),
        "ijkl".to_string(),
    ];
    assert_eq!(format_cipher(&parts, "camel"), "abcdEfgh ijkl");
}

#[test]
fn test_format_unknown_selector_concatenates() {
    let parts = vec!["abcd".to_string(), "efgh".to_string()];
    assert_eq!(format_cipher(&parts, "bogus"), "abcdefgh");
}

#[test]
fn test_format_literal_untouched_by_case_layouts() {
    let parts = vec!["abcd".to_string(), "x-y".to_string(), "efgh".to_string()];
    assert_eq!(format_cipher(&parts, "pascal"), "Abcdx-yEfgh");
}

#[test]
fn test_format_4letter_with_literal_is_concat() {
    let parts = vec!["abcd".to_string(), "x y".to_string(), "efgh".to_string()];
    assert_eq!(format_cipher(&parts, "4-letter"), "abcdx yefgh");
}

#[test]
fn test_space_round_trip_recovers_parts() {
    let parts = vec!["abcd".to_string(), " ".to_string(), "efgh".to_string()];
    let rendered = format_cipher(&parts, "space");
    assert_eq!(preprocess_cipher(&rendered), parts);
}

#[test]
fn test_preprocess_idempotent_across_space() {
    let original = preprocess_cipher("AbcdEfgh xyz!");
    assert_eq!(original, vec!["abcd", "efgh", " ", "xyz", "!"]);
    let rendered = format_cipher(&original, "space");
    assert_eq!(preprocess_cipher(&rendered), original);
}

#[test]
fn test_preprocess_short_alpha_stays_literal() {
    assert_eq!(preprocess_cipher("abc"), vec!["abc"]);
}

#[test]
fn test_preprocess_pascal_window_with_remainder_stays_literal() {
    assert_eq!(preprocess_cipher("Abcde"), vec!["Abcde"]);
}

#[test]
fn test_preprocess_uppercase_multiple_of_four_lowercased() {
    assert_eq!(preprocess_cipher("ABCD"), vec!["abcd"]);
}

#[test]
fn test_preprocess_mixed_runs() {
    assert_eq!(preprocess_cipher("ab12cd"), vec!["ab", "12", "cd"]);
}

#[test]
fn test_try_split_codes_whole_chunks() {
    let mut out: Vec<String> = vec!["seed".to_string()];
    assert!(try_split_codes("abcdEFGH", &mut out));
    assert_eq!(out, vec!["seed", "abcd", "efgh"]);
}

#[test]
fn test_try_split_codes_remainder_rejected() {
    let mut out: Vec<String> = Vec::new();
    assert!(!try_split_codes("Abcde", &mut out));
    assert!(out.is_empty());
}

#[test]
fn test_try_split_codes_empty_rejected() {
    let mut out: Vec<String> = Vec::new();
    assert!(!try_split_codes("", &mut out));
    assert!(out.is_empty());
}

#[test]
fn test_capitalize_first_cases() {
    assert_eq!(capitalize_first("abcd"), "Abcd");
    assert_eq!(capitalize_first(""), "");
    assert_eq!(capitalize_first("1bc"), "1bc");
    assert_eq!(capitalize_first("Abcd"), "Abcd");
}

#[test]
fn test_is_chinese_ranges() {
    assert!(is_chinese('\u{4E00}'));
    assert!(is_chinese('\u{9FFF}'));
    assert!(is_chinese('\u{3400}'));
    assert!(is_chinese('\u{4DBF}'));
    assert!(is_chinese('\u{F900}'));
    assert!(is_chinese('\u{FAFF}'));
    assert!(!is_chinese('a'));
    assert!(!is_chinese('\u{A000}'));
    assert!(!is_chinese(' '));
}
