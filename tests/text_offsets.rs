use node_editor_core::text_offsets::{
    byte_offset_to_char_count, byte_offset_to_utf16_offset, ceil_byte_offset, char_count_to_byte_offset,
    floor_byte_offset, is_valid_byte_offset, utf16_offset_to_byte_offset,
    utf16_offset_to_byte_offset_clamped,
};

// ===== Byte Offset Utility Tests =====

#[test]
fn test_is_valid_byte_offset() {
    let text = "héllo"; // é is 2 bytes
    assert!(is_valid_byte_offset(text, 0));
    assert!(is_valid_byte_offset(text, 1));
    assert!(!is_valid_byte_offset(text, 2)); // middle of é
    assert!(is_valid_byte_offset(text, 3));
    assert!(is_valid_byte_offset(text, 6)); // end of string
    assert!(!is_valid_byte_offset(text, 7)); // beyond string
}

#[test]
fn test_is_valid_byte_offset_empty_string() {
    assert!(is_valid_byte_offset("", 0));
    assert!(!is_valid_byte_offset("", 1));
}

#[test]
fn test_is_valid_byte_offset_multibyte() {
    let text = "日本語"; // each kanji is 3 bytes
    assert!(is_valid_byte_offset(text, 0));
    assert!(!is_valid_byte_offset(text, 1));
    assert!(!is_valid_byte_offset(text, 2));
    assert!(is_valid_byte_offset(text, 3));
    assert!(is_valid_byte_offset(text, 6));
    assert!(is_valid_byte_offset(text, 9));
}

#[test]
fn test_is_valid_byte_offset_emoji() {
    let text = "a😀b"; // 'a'=1, '😀'=4, 'b'=1
    assert!(is_valid_byte_offset(text, 0));
    assert!(is_valid_byte_offset(text, 1));
    assert!(!is_valid_byte_offset(text, 2));
    assert!(!is_valid_byte_offset(text, 3));
    assert!(!is_valid_byte_offset(text, 4));
    assert!(is_valid_byte_offset(text, 5));
    assert!(is_valid_byte_offset(text, 6));
}

#[test]
fn test_floor_byte_offset() {
    let text = "héllo";
    assert_eq!(floor_byte_offset(text, 0), 0);
    assert_eq!(floor_byte_offset(text, 1), 1);
    assert_eq!(floor_byte_offset(text, 2), 1); // middle of é → start of é
    assert_eq!(floor_byte_offset(text, 3), 3);
    assert_eq!(floor_byte_offset(text, 10), 6); // beyond → end
}

#[test]
fn test_floor_byte_offset_multibyte() {
    let text = "日本語";
    assert_eq!(floor_byte_offset(text, 1), 0);
    assert_eq!(floor_byte_offset(text, 2), 0);
    assert_eq!(floor_byte_offset(text, 3), 3);
    assert_eq!(floor_byte_offset(text, 4), 3);
    assert_eq!(floor_byte_offset(text, 5), 3);
}

#[test]
fn test_floor_byte_offset_empty() {
    assert_eq!(floor_byte_offset("", 0), 0);
    assert_eq!(floor_byte_offset("", 5), 0);
}

#[test]
fn test_ceil_byte_offset() {
    let text = "héllo";
    assert_eq!(ceil_byte_offset(text, 0), 0);
    assert_eq!(ceil_byte_offset(text, 1), 1);
    assert_eq!(ceil_byte_offset(text, 2), 3); // middle of é → after é
    assert_eq!(ceil_byte_offset(text, 3), 3);
    assert_eq!(ceil_byte_offset(text, 10), 6); // beyond → end
}

#[test]
fn test_ceil_byte_offset_multibyte() {
    let text = "日本語";
    assert_eq!(ceil_byte_offset(text, 1), 3);
    assert_eq!(ceil_byte_offset(text, 2), 3);
    assert_eq!(ceil_byte_offset(text, 3), 3);
    assert_eq!(ceil_byte_offset(text, 4), 6);
}

#[test]
fn test_ceil_byte_offset_empty() {
    assert_eq!(ceil_byte_offset("", 0), 0);
    assert_eq!(ceil_byte_offset("", 5), 0);
}

#[test]
fn test_floor_ceil_at_exact_boundary() {
    let text = "abc";
    for i in 0..=text.len() {
        assert_eq!(floor_byte_offset(text, i), i);
        assert_eq!(ceil_byte_offset(text, i), i);
    }
}

#[test]
fn test_byte_offset_to_char_count() {
    let text = "héllo";
    assert_eq!(byte_offset_to_char_count(text, 0), 0);
    assert_eq!(byte_offset_to_char_count(text, 1), 1);
    assert_eq!(byte_offset_to_char_count(text, 3), 2);
    assert_eq!(byte_offset_to_char_count(text, 6), 5);
}

#[test]
fn test_byte_offset_to_char_count_emoji() {
    let text = "a😀b";
    assert_eq!(byte_offset_to_char_count(text, 0), 0);
    assert_eq!(byte_offset_to_char_count(text, 1), 1);
    assert_eq!(byte_offset_to_char_count(text, 5), 2);
    assert_eq!(byte_offset_to_char_count(text, 6), 3);
}

#[test]
fn test_char_count_to_byte_offset() {
    let text = "héllo";
    assert_eq!(char_count_to_byte_offset(text, 0), 0);
    assert_eq!(char_count_to_byte_offset(text, 1), 1);
    assert_eq!(char_count_to_byte_offset(text, 2), 3);
    assert_eq!(char_count_to_byte_offset(text, 5), 6);
    assert_eq!(char_count_to_byte_offset(text, 10), 6); // beyond → end
}

#[test]
fn test_char_count_to_byte_offset_emoji() {
    let text = "a😀b";
    assert_eq!(char_count_to_byte_offset(text, 0), 0);
    assert_eq!(char_count_to_byte_offset(text, 1), 1);
    assert_eq!(char_count_to_byte_offset(text, 2), 5);
    assert_eq!(char_count_to_byte_offset(text, 3), 6);
}

#[test]
fn test_roundtrip_byte_char_conversion() {
    let text = "héllo 日本語 😀";
    for (idx, _) in text.char_indices() {
        let char_count = byte_offset_to_char_count(text, idx);
        let back = char_count_to_byte_offset(text, char_count);
        assert_eq!(back, idx, "Roundtrip failed for byte offset {}", idx);
    }
    let char_count = byte_offset_to_char_count(text, text.len());
    assert_eq!(char_count_to_byte_offset(text, char_count), text.len());
}

#[test]
fn test_byte_offset_conversions_empty() {
    assert_eq!(byte_offset_to_char_count("", 0), 0);
    assert_eq!(char_count_to_byte_offset("", 0), 0);
    assert_eq!(char_count_to_byte_offset("", 5), 0);
}

#[test]
fn test_surrogate_pairs() {
    let text = "𝄞"; // Musical G clef, 4 bytes in UTF-8
    assert_eq!(text.len(), 4);
    assert!(is_valid_byte_offset(text, 0));
    assert!(!is_valid_byte_offset(text, 1));
    assert!(!is_valid_byte_offset(text, 2));
    assert!(!is_valid_byte_offset(text, 3));
    assert!(is_valid_byte_offset(text, 4));
    assert_eq!(floor_byte_offset(text, 2), 0);
    assert_eq!(ceil_byte_offset(text, 2), 4);
}

#[test]
fn test_combining_characters() {
    let text = "e\u{0301}"; // 'e' + combining acute accent
    assert_eq!(text.chars().count(), 2);
    assert_eq!(text.len(), 3);
    assert!(is_valid_byte_offset(text, 0));
    assert!(is_valid_byte_offset(text, 1));
    assert!(!is_valid_byte_offset(text, 2));
    assert!(is_valid_byte_offset(text, 3));
    assert_eq!(byte_offset_to_char_count(text, 1), 1);
    assert_eq!(byte_offset_to_char_count(text, 3), 2);
}

// ===== UTF-16 Conversion Tests =====

#[test]
fn test_utf16_to_byte_ascii() {
    let text = "hello";
    assert_eq!(utf16_offset_to_byte_offset(text, 0), Some(0));
    assert_eq!(utf16_offset_to_byte_offset(text, 3), Some(3));
    assert_eq!(utf16_offset_to_byte_offset(text, 5), Some(5));
    assert_eq!(utf16_offset_to_byte_offset(text, 6), None);
}

#[test]
fn test_utf16_to_byte_empty() {
    assert_eq!(utf16_offset_to_byte_offset("", 0), Some(0));
    assert_eq!(utf16_offset_to_byte_offset("", 1), None);
}

#[test]
fn test_utf16_to_byte_bmp() {
    let text = "日本語"; // 3 UTF-8 bytes each, 1 UTF-16 unit each
    assert_eq!(utf16_offset_to_byte_offset(text, 0), Some(0));
    assert_eq!(utf16_offset_to_byte_offset(text, 1), Some(3));
    assert_eq!(utf16_offset_to_byte_offset(text, 2), Some(6));
    assert_eq!(utf16_offset_to_byte_offset(text, 3), Some(9));
    assert_eq!(utf16_offset_to_byte_offset(text, 4), None);
}

#[test]
fn test_utf16_to_byte_accented() {
    let text = "héllo"; // 'é' is 2 UTF-8 bytes, 1 UTF-16 unit
    assert_eq!(utf16_offset_to_byte_offset(text, 1), Some(1));
    assert_eq!(utf16_offset_to_byte_offset(text, 2), Some(3));
    assert_eq!(utf16_offset_to_byte_offset(text, 5), Some(6));
}

#[test]
fn test_utf16_to_byte_emoji() {
    let text = "a😀b"; // emoji is 4 UTF-8 bytes, 2 UTF-16 units
    assert_eq!(utf16_offset_to_byte_offset(text, 0), Some(0));
    assert_eq!(utf16_offset_to_byte_offset(text, 1), Some(1));
    assert_eq!(utf16_offset_to_byte_offset(text, 2), None); // inside surrogate pair
    assert_eq!(utf16_offset_to_byte_offset(text, 3), Some(5));
    assert_eq!(utf16_offset_to_byte_offset(text, 4), Some(6));
}

#[test]
fn test_utf16_to_byte_multiple_emoji() {
    let text = "😀😀";
    assert_eq!(utf16_offset_to_byte_offset(text, 0), Some(0));
    assert_eq!(utf16_offset_to_byte_offset(text, 1), None);
    assert_eq!(utf16_offset_to_byte_offset(text, 2), Some(4));
    assert_eq!(utf16_offset_to_byte_offset(text, 3), None);
    assert_eq!(utf16_offset_to_byte_offset(text, 4), Some(8));
}

#[test]
fn test_utf16_to_byte_mixed() {
    // "a日😀z": UTF-8 = 1+3+4+1=9, UTF-16 = 1+1+2+1=5
    let text = "a日😀z";
    assert_eq!(utf16_offset_to_byte_offset(text, 0), Some(0));
    assert_eq!(utf16_offset_to_byte_offset(text, 1), Some(1));
    assert_eq!(utf16_offset_to_byte_offset(text, 2), Some(4));
    assert_eq!(utf16_offset_to_byte_offset(text, 3), None); // inside emoji
    assert_eq!(utf16_offset_to_byte_offset(text, 4), Some(8));
    assert_eq!(utf16_offset_to_byte_offset(text, 5), Some(9));
}

#[test]
fn test_byte_to_utf16_ascii() {
    let text = "hello";
    assert_eq!(byte_offset_to_utf16_offset(text, 0), 0);
    assert_eq!(byte_offset_to_utf16_offset(text, 3), 3);
    assert_eq!(byte_offset_to_utf16_offset(text, 5), 5);
}

#[test]
fn test_byte_to_utf16_empty() {
    assert_eq!(byte_offset_to_utf16_offset("", 0), 0);
}

#[test]
fn test_byte_to_utf16_bmp() {
    let text = "日本語";
    assert_eq!(byte_offset_to_utf16_offset(text, 0), 0);
    assert_eq!(byte_offset_to_utf16_offset(text, 3), 1);
    assert_eq!(byte_offset_to_utf16_offset(text, 6), 2);
    assert_eq!(byte_offset_to_utf16_offset(text, 9), 3);
}

#[test]
fn test_byte_to_utf16_emoji() {
    let text = "a😀b";
    assert_eq!(byte_offset_to_utf16_offset(text, 0), 0);
    assert_eq!(byte_offset_to_utf16_offset(text, 1), 1);
    assert_eq!(byte_offset_to_utf16_offset(text, 5), 3);
    assert_eq!(byte_offset_to_utf16_offset(text, 6), 4);
}

#[test]
fn test_utf16_clamped_valid() {
    let text = "a😀b";
    assert_eq!(utf16_offset_to_byte_offset_clamped(text, 0), 0);
    assert_eq!(utf16_offset_to_byte_offset_clamped(text, 1), 1);
    assert_eq!(utf16_offset_to_byte_offset_clamped(text, 3), 5);
    assert_eq!(utf16_offset_to_byte_offset_clamped(text, 4), 6);
}

#[test]
fn test_utf16_clamped_surrogate() {
    // An offset inside a surrogate pair moves forward past the character.
    assert_eq!(utf16_offset_to_byte_offset_clamped("a😀b", 2), 5);
}

#[test]
fn test_utf16_clamped_beyond() {
    assert_eq!(utf16_offset_to_byte_offset_clamped("hello", 100), 5);
    assert_eq!(utf16_offset_to_byte_offset_clamped("a😀", 10), 5);
}

#[test]
fn test_utf16_clamped_consecutive_surrogate_pairs() {
    // "😀😀": each emoji is 4 UTF-8 bytes, 2 UTF-16 code units
    let text = "😀😀";
    assert_eq!(utf16_offset_to_byte_offset_clamped(text, 0), 0);
    assert_eq!(utf16_offset_to_byte_offset_clamped(text, 1), 4); // mid-first → after first
    assert_eq!(utf16_offset_to_byte_offset_clamped(text, 2), 4);
    assert_eq!(utf16_offset_to_byte_offset_clamped(text, 3), 8); // mid-second → after second
    assert_eq!(utf16_offset_to_byte_offset_clamped(text, 4), 8);
}

#[test]
fn test_utf16_clamped_empty() {
    assert_eq!(utf16_offset_to_byte_offset_clamped("", 0), 0);
    assert_eq!(utf16_offset_to_byte_offset_clamped("", 5), 0);
}

#[test]
fn test_roundtrip_utf16_byte() {
    let text = "héllo 日本語 😀 world";
    for (idx, _) in text.char_indices() {
        let utf16 = byte_offset_to_utf16_offset(text, idx);
        let back = utf16_offset_to_byte_offset(text, utf16);
        assert_eq!(back, Some(idx), "Roundtrip failed for byte offset {idx} (utf16 {utf16})");
    }
    let utf16 = byte_offset_to_utf16_offset(text, text.len());
    assert_eq!(utf16_offset_to_byte_offset(text, utf16), Some(text.len()));
}

#[test]
fn test_utf16_combining_characters() {
    let text = "e\u{0301}"; // e + combining acute accent
    assert_eq!(text.chars().count(), 2);
    assert_eq!(text.len(), 3); // 1 + 2 UTF-8 bytes

    // UTF-16: 'e' = 1 unit, combining accent = 1 unit
    assert_eq!(utf16_offset_to_byte_offset(text, 0), Some(0));
    assert_eq!(utf16_offset_to_byte_offset(text, 1), Some(1));
    assert_eq!(utf16_offset_to_byte_offset(text, 2), Some(3));

    assert_eq!(byte_offset_to_utf16_offset(text, 0), 0);
    assert_eq!(byte_offset_to_utf16_offset(text, 1), 1);
    assert_eq!(byte_offset_to_utf16_offset(text, 3), 2);
}
