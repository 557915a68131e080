use uniaz::UniAz;
use uniaz_cipher::{codec_round_trip, decrypt_text, encrypt_text};

#[test]
fn test_oracle_round_trip_single_char() {
    let oracle = UniAz::new();
    for c in ['\u{4E2D}', '\u{56FD}', '\u{9FFF}', '\u{4E00}'] {
        let code = oracle.encrypt(c);
        assert_eq!(code.len(), 4);
        assert!(code.chars().all(|d| d.is_ascii_lowercase()));
        assert_eq!(oracle.decrypt(&code).unwrap(), c);
    }
}

#[test]
fn test_encrypt_text_parts_shape() {
    let (formatted, parts, processed) = encrypt_text("\u{4E2D}a b\u{56FD}", false, "space").unwrap();
    assert_eq!(parts.len(), 3);
    assert_eq!(parts[1], "a b");
    assert_eq!(parts[0].len(), 4);
    assert_eq!(parts[2].len(), 4);
    assert_eq!(processed, "\u{4E2D}a b\u{56FD}");
    assert_eq!(formatted, format!("{}a b{}", parts[0], parts[2]));
}

#[test]
fn test_encrypt_then_decrypt_four_letter() {
    let (formatted, _, _) = encrypt_text("\u{4E2D}\u{56FD}", false, "4-letter").unwrap();
    assert_eq!(decrypt_text(&formatted).unwrap(), "\u{4E2D}\u{56FD}");
}

#[test]
fn test_encrypt_then_decrypt_with_space_literal() {
    let (formatted, _, _) = encrypt_text("\u{4E2D} \u{56FD}", false, "space").unwrap();
    assert_eq!(decrypt_text(&formatted).unwrap(), "\u{4E2D} \u{56FD}");
}

#[test]
fn test_encrypt_then_decrypt_pascal() {
    let (formatted, _, _) = encrypt_text("\u{4E2D}\u{56FD}", false, "pascal").unwrap();
    assert_eq!(decrypt_text(&formatted).unwrap(), "\u{4E2D}\u{56FD}");
}

#[test]
fn test_encrypt_traditional_converts_script() {
    // Simplified ti (body) becomes its traditional form before encoding.
    let (formatted, _, processed) = encrypt_text("\u{4F53}", true, "4-letter").unwrap();
    assert_eq!(processed, "\u{9AD4}");
    assert_eq!(decrypt_text(&formatted).unwrap(), "\u{9AD4}");
}

#[test]
fn test_encrypt_empty() {
    let (formatted, parts, processed) = encrypt_text("", false, "space").unwrap();
    assert_eq!(formatted, "");
    assert!(parts.is_empty());
    assert_eq!(processed, "");
}

#[test]
fn test_decrypt_plain_text_passes_through() {
    assert_eq!(decrypt_text("hello").unwrap(), "hello");
    assert_eq!(decrypt_text("").unwrap(), "");
    assert_eq!(decrypt_text("a b!").unwrap(), "a b!");
}

#[test]
fn test_codec_round_trip_through_library() {
    for c in ['\u{4E2D}', '\u{56FD}', '\u{3400}', '\u{FAFF}', 'a'] {
        assert_eq!(codec_round_trip(c), Some(c));
    }
}
