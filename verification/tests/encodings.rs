use unicleaner::scanner::encoding::{
    decode_utf32_be, decode_utf32_le, detect_and_decode, detect_decode_with_encoding, detect_heuristic,
    is_binary, DetectedEncoding,
};
use unicleaner::scanner::file_scanner::{decode_with_override, scan_file};

#[test]
fn test_detect_utf8() {
    let text = "Hello, world!";
    let result = detect_and_decode(text.as_bytes()).unwrap();
    assert_eq!(result, text);
}

#[test]
fn test_detect_utf8_with_unicode() {
    let text = "Hello, 世界!";
    let result = detect_and_decode(text.as_bytes()).unwrap();
    assert_eq!(result, text);
}

#[test]
fn test_is_binary_with_null_bytes() {
    let binary = b"Hello\x00\x00\x00\x00\x00\x00\x00\x00\x00\x00\x00World";
    assert!(is_binary(binary));
}

#[test]
fn test_is_binary_with_text() {
    let text = b"Hello World";
    assert!(!is_binary(text));
}

#[test]
fn test_binary_detection_control_byte_ratio() {
    let mut data = Vec::new();
    for i in 0..100u8 {
        if i < 40 {
            data.push(0x01);
        } else {
            data.push(0x41);
        }
    }
    assert!(is_binary(&data));
}

#[test]
fn test_text_file_not_falsely_binary() {
    let mut data = Vec::new();
    for _ in 0..100 {
        data.extend_from_slice(b"Hello\tWorld\n");
    }
    assert!(!is_binary(&data));
}

fn utf16(text: &str, big_endian: bool) -> Vec<u8> {
    let mut bytes = Vec::new();
    for ch in text.encode_utf16() {
        if big_endian {
            bytes.push((ch >> 8) as u8);
            bytes.push(ch as u8);
        } else {
            bytes.push(ch as u8);
            bytes.push((ch >> 8) as u8);
        }
    }
    bytes
}

fn utf32(text: &str, big_endian: bool) -> Vec<u8> {
    let mut bytes = Vec::new();
    for ch in text.chars() {
        let code = ch as u32;
        if big_endian {
            bytes.extend_from_slice(&code.to_be_bytes());
        } else {
            bytes.extend_from_slice(&code.to_le_bytes());
        }
    }
    bytes
}

#[test]
fn test_detect_utf16_le_bom() {
    let mut bytes = vec![0xFF, 0xFE];
    bytes.extend(utf16("Hello", false));
    let result = detect_and_decode(&bytes);
    assert!(result.is_ok());
    assert_eq!(result.unwrap(), "Hello");
}

#[test]
fn test_detect_utf16_be_bom() {
    let mut bytes = vec![0xFE, 0xFF];
    bytes.extend(utf16("Hello", true));
    let result = detect_and_decode(&bytes);
    assert!(result.is_ok());
    assert_eq!(result.unwrap(), "Hello");
}

#[test]
fn test_detect_utf32_le_bom() {
    let mut bytes = vec![0xFF, 0xFE, 0x00, 0x00];
    bytes.extend(utf32("Hi", false));
    let result = detect_and_decode(&bytes);
    assert!(result.is_ok());
    assert_eq!(result.unwrap(), "Hi");
}

#[test]
fn test_detect_utf32_be_bom() {
    let mut bytes = vec![0x00, 0x00, 0xFE, 0xFF];
    bytes.extend(utf32("Hi", true));
    let result = detect_and_decode(&bytes);
    assert!(result.is_ok());
    assert_eq!(result.unwrap(), "Hi");
}

#[test]
fn test_decode_utf16_le_no_bom() {
    let result = detect_and_decode(&utf16("Test", false));
    assert!(result.is_ok());
    assert_eq!(result.unwrap(), "Test");
}

#[test]
fn test_decode_utf16_be_no_bom() {
    let result = detect_and_decode(&utf16("Test", true));
    assert!(result.is_ok());
    assert_eq!(result.unwrap(), "Test");
}

#[test]
fn test_decode_utf32_le_no_bom() {
    let result = detect_and_decode(&utf32("AB", false));
    assert!(result.is_ok());
    assert_eq!(result.unwrap(), "AB");
}

#[test]
fn test_decode_utf32_be_no_bom() {
    let result = detect_and_decode(&utf32("AB", true));
    assert!(result.is_ok());
    assert_eq!(result.unwrap(), "AB");
}

#[test]
fn test_detect_heuristic_tiny_input() {
    assert!(detect_heuristic(&[0x41]).is_none());
    assert!(detect_heuristic(&[0x41, 0x42]).is_none());
    assert!(detect_heuristic(&[0x41, 0x42, 0x43]).is_none());
}

#[test]
fn test_detect_and_decode_unrecognizable() {
    let bytes = [0x80, 0x81, 0x82, 0x83, 0x84, 0x85, 0x86, 0x87];
    assert!(detect_and_decode(&bytes).is_err());
}

#[test]
fn test_detect_decode_with_encoding_unrecognizable() {
    let bytes = [0x80, 0x81, 0x82, 0x83, 0x84, 0x85, 0x86, 0x87];
    assert!(detect_decode_with_encoding(&bytes).is_err());
}

#[test]
fn test_is_binary_empty() {
    assert!(!is_binary(&[]));
}

#[test]
fn test_decode_utf32_le_bad_length() {
    let bytes = [0x41, 0x00, 0x00, 0x00, 0x42];
    assert!(decode_utf32_le(&bytes).is_err());
}

#[test]
fn test_decode_utf32_be_bad_length() {
    let bytes = [0x00, 0x00, 0x00, 0x41, 0x42];
    assert!(decode_utf32_be(&bytes).is_err());
}

#[test]
fn test_decode_utf32_le_surrogate() {
    let bytes: [u8; 4] = [0x00, 0xD8, 0x00, 0x00];
    assert!(decode_utf32_le(&bytes).is_err());
}

#[test]
fn test_decode_utf32_be_surrogate() {
    let bytes: [u8; 4] = [0x00, 0x00, 0xD8, 0x00];
    assert!(decode_utf32_be(&bytes).is_err());
}

#[test]
fn utf32_round_trip_with_bom() {
    let text = "a\u{1F600}z";
    let mut bytes = vec![0x00, 0x00, 0xFE, 0xFF];
    bytes.extend(utf32(text, true));
    let (decoded, enc) = detect_decode_with_encoding(&bytes).unwrap();
    assert_eq!(decoded, text);
    assert_eq!(enc, DetectedEncoding::Utf32Be);
}

#[test]
fn override_reports_invalid_utf8() {
    let err = decode_with_override(&[0x66, 0xFF], DetectedEncoding::Utf8).unwrap_err();
    assert!(err.to_text().starts_with("Encoding error: Invalid UTF-8: "));
}

#[test]
fn test_scan_file_returns_violations() {
    let path = "tests/integration/fixtures/zero_width/test1.rs";
    {
        let bytes = "fn main() {\n    let user\u{200B}name = 1;\n}\n".as_bytes();
        let violations = scan_file(path, bytes).unwrap();
        assert!(!violations.is_empty());
        assert!(violations.iter().any(|v| v.code_point == 0x200B));
    }
}

#[test]
fn test_scan_clean_file() {
    let path = "tests/integration/fixtures/clean/simple.rs";
    {
        let bytes = "fn main() {\n    println!(\"hello\");\n}\n".as_bytes();
        let violations = scan_file(path, bytes).unwrap();
        assert!(violations.is_empty());
    }
}

#[test]
fn scan_file_flags_hidden_characters_with_encoding() {
    let violations = scan_file("x.txt", "ab\u{200B}c\n".as_bytes()).unwrap();
    assert_eq!(violations.len(), 1);
    assert_eq!(violations[0].column, 3);
    assert_eq!(violations[0].encoding, DetectedEncoding::Utf8);
    let mut bytes = vec![0xFF, 0xFE];
    bytes.extend(utf16("ab\u{00E9}", false));
    let v16 = scan_file("y.txt", &bytes).unwrap();
    assert_eq!(v16.len(), 1);
    assert_eq!(v16[0].pattern_name, "disallowed-code-point");
    assert_eq!(v16[0].encoding, DetectedEncoding::Utf16Le);
}

#[test]
fn scan_file_skips_binary() {
    let binary = b"Hello\x00\x00\x00\x00\x00\x00\x00\x00\x00\x00\x00World\xE2\x80\x8B";
    assert!(scan_file("bin.dat", binary).unwrap().is_empty());
}

#[test]
fn utf8_text_roundtrips_with_and_without_bom() {
    let text = "héllo – wörld ✓ 日本";
    assert_eq!(detect_and_decode(text.as_bytes()).unwrap(), text);
    let mut with_bom = vec![0xEF, 0xBB, 0xBF];
    with_bom.extend_from_slice(text.as_bytes());
    assert_eq!(detect_and_decode(&with_bom).unwrap(), text);
    assert_eq!(detect_and_decode(b"").unwrap(), "");
}
