use unicleaner::scanner::unicode_detector::{
    context_snippet, detect_in_string, detect_in_string_with_policy, is_allowed_by_policy,
};
use unicleaner::unicode::ranges::UnicodeRange;

#[test]
fn unicode_detector_test_detect_zero_width_space() {
    let content = "let user\u{200B}name = \"admin\";";
    let violations = detect_in_string(content, "test.rs");
    assert_eq!(violations.len(), 1);
    assert_eq!(violations[0].code_point, 0x200B);
    assert_eq!(violations[0].pattern_name, "zero-width-space");
}

#[test]
fn unicode_detector_test_detect_bidi_override() {
    let bidi_char = char::from_u32(0x202E).unwrap();
    let content = format!("/* {} }}", bidi_char);
    let violations = detect_in_string(&content, "test.rs");
    assert!(!violations.is_empty());
    assert!(violations.iter().any(|v| v.code_point == 0x202E));
}

#[test]
fn test_clean_content() {
    let content = "let username = \"admin\";";
    let violations = detect_in_string(content, "test.rs");
    assert!(violations.is_empty());
}

#[test]
fn test_column_is_char_based_not_byte() {
    let content = "é\u{200B}x";
    let violations = detect_in_string(content, "test.rs");
    assert_eq!(violations.len(), 1);
    assert_eq!(violations[0].code_point, 0x200B);
    assert_eq!(violations[0].column, 2);
    assert_eq!(violations[0].byte_offset, 2);
}

#[test]
fn test_byte_offset_field_populated() {
    let content = "abc\u{200B}";
    let violations = detect_in_string(content, "test.rs");
    assert_eq!(violations.len(), 1);
    assert_eq!(violations[0].byte_offset, 3);
    assert_eq!(violations[0].column, 4);
}

#[test]
fn test_zwj_position_inside_grapheme_cluster() {
    let content = "a\u{1F469}\u{200D}\u{1F4BB}b";
    let violations = detect_in_string(content, "test.rs");
    let zwj = violations.iter().find(|v| v.code_point == 0x200D).expect("Should detect ZWJ");
    assert_eq!(zwj.column, 3);
    assert_eq!(zwj.byte_offset, 5);
}

#[test]
fn test_combining_mark_position() {
    let content = "e\u{0301}";
    let violations = detect_in_string(content, "test.rs");
    let combining = violations.iter().find(|v| v.code_point == 0x0301).expect("Should detect combining mark");
    assert_eq!(combining.column, 2);
    assert_eq!(combining.byte_offset, 1);
}

#[test]
fn test_denied_code_points() {
    let content = "caf\u{00E9}";
    let violations = detect_in_string_with_policy(content, "test.rs", false, None, &[0x00E9]);
    assert_eq!(violations.len(), 1);
    assert_eq!(violations[0].code_point, 0x00E9);
    assert_eq!(violations[0].pattern_name, "explicitly-denied");
}

#[test]
fn test_deny_by_default_with_no_allowlist() {
    let content = "caf\u{00E9}";
    let violations = detect_in_string_with_policy(content, "test.rs", true, None, &[]);
    assert!(violations.iter().any(|v| v.code_point == 0x00E9));
    let v = violations.iter().find(|v| v.code_point == 0x00E9).unwrap();
    assert_eq!(v.pattern_name, "disallowed-code-point");
}

#[test]
fn test_deny_by_default_with_allowlist() {
    let ranges = vec![UnicodeRange::new(0x0000, 0x00FF)];
    let content = "caf\u{00E9}";
    let violations = detect_in_string_with_policy(content, "test.rs", true, Some(&ranges), &[]);
    assert!(violations.iter().all(|v| v.code_point != 0x00E9));
}

#[test]
fn test_context_snippet_long_line() {
    let prefix = "a".repeat(80);
    let suffix = "b".repeat(80);
    let content = format!("{}\u{200B}{}", prefix, suffix);
    let violations = detect_in_string(&content, "test.rs");
    assert_eq!(violations.len(), 1);
    assert!(violations[0].context.contains("..."));
}

#[test]
fn test_is_allowed_by_policy_with_ranges() {
    let ranges = vec![UnicodeRange::new(0x0041, 0x005A)];
    assert!(is_allowed_by_policy(0x0041, Some(&ranges)));
    assert!(!is_allowed_by_policy(0x0061, Some(&ranges)));
}

#[test]
fn test_is_allowed_by_policy_default() {
    assert!(is_allowed_by_policy(0x0020, None));
    assert!(is_allowed_by_policy(0x007E, None));
    assert!(is_allowed_by_policy(0x0009, None));
    assert!(!is_allowed_by_policy(0x0080, None));
    assert!(!is_allowed_by_policy(0x0000, None));
}

#[test]
fn test_context_snippet_short_line() {
    let line: Vec<char> = "short".chars().collect();
    let snippet = context_snippet(&line, 2);
    assert_eq!(snippet, "short");
}

#[test]
fn violations_carry_line_numbers_and_file() {
    let content = "ok\nsecond \u{200B}\r\nthird\u{202E}";
    let violations = detect_in_string(content, "dir/f.rs");
    assert_eq!(violations.len(), 2);
    assert_eq!((violations[0].line, violations[0].column), (2, 8));
    assert_eq!((violations[1].line, violations[1].column), (3, 6));
    assert!(violations.iter().all(|v| v.file_path == "dir/f.rs"));
    assert_eq!(violations[1].pattern_name, "right-to-left-override");
}

#[test]
fn default_scan_reports_positions_from_one_under_builtin_patterns() {
    let content = "a\u{202E}b\n\u{200B}\nc\u{0430}";
    let found = detect_in_string(content, "x.rs");
    assert_eq!(found.len(), 3);
    for v in &found {
        assert!(v.line >= 1 && v.column >= 1);
        assert_eq!(v.file_path, "x.rs");
        assert!(unicleaner::unicode::malicious::is_malicious(v.code_point).is_some());
    }
    assert_eq!((found[0].line, found[0].column), (1, 2));
    assert_eq!((found[1].line, found[1].column), (2, 1));
    assert_eq!((found[2].line, found[2].column), (3, 2));
}
