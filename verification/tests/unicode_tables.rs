use unicleaner::unicode::categories::{get_category, is_bidi_control, is_homoglyph_risk, is_invisible};
use unicleaner::unicode::malicious::{
    get_malicious_patterns, is_malicious, MaliciousCategory, MaliciousPattern, Severity,
};
use unicleaner::unicode::ranges::UnicodeRange;

#[test]
fn test_unicode_range_contains() {
    let range = UnicodeRange::new(0x0370, 0x03FF);
    assert!(range.contains(0x0370u32));
    assert!(range.contains(0x03FFu32));
    assert!(range.contains(0x0385u32));
    assert!(!range.contains(0x036Fu32));
    assert!(!range.contains(0x0400u32));
}

#[test]
fn test_unicode_range_intersects() {
    let range1 = UnicodeRange::new(0x0370, 0x03FF);
    let range2 = UnicodeRange::new(0x03E0, 0x0420);
    let range3 = UnicodeRange::new(0x0400, 0x04FF);
    let range4 = UnicodeRange::new(0x0500, 0x05FF);
    assert!(range1.intersects(&range2));
    assert!(!range1.intersects(&range3));
    assert!(!range1.intersects(&range4));
}

#[test]
fn test_unicode_range_merge() {
    let range1 = UnicodeRange::new(0x0370, 0x03FF);
    let range2 = UnicodeRange::new(0x03E0, 0x0420);
    let merged = range1.merge(&range2).unwrap();
    assert_eq!(merged.start, 0x0370);
    assert_eq!(merged.end, 0x0420);
}

#[test]
fn test_with_description() {
    let range = UnicodeRange::with_description(0x0370, 0x03FF, "Greek and Coptic".to_string());
    assert_eq!(range.start, 0x0370);
    assert_eq!(range.end, 0x03FF);
    assert_eq!(range.description, Some("Greek and Coptic".to_string()));
}

#[test]
fn test_merge_adjacent_ranges() {
    let range1 = UnicodeRange::new(0x0370, 0x03FF);
    let range2 = UnicodeRange::new(0x0400, 0x04FF);
    let merged = range1.merge(&range2);
    assert!(merged.is_some(), "Adjacent ranges should merge");
    if let Some(m) = merged {
        assert_eq!(m.start, 0x0370);
        assert_eq!(m.end, 0x04FF);
    }
}

#[test]
fn test_merge_overlapping_ranges() {
    let range1 = UnicodeRange::new(0x0370, 0x0400);
    let range2 = UnicodeRange::new(0x03E0, 0x0420);
    let merged = range1.merge(&range2);
    assert!(merged.is_some());
    if let Some(m) = merged {
        assert_eq!(m.start, 0x0370);
        assert_eq!(m.end, 0x0420);
    }
}

#[test]
fn test_merge_separate_ranges() {
    let range1 = UnicodeRange::new(0x0370, 0x03FF);
    let range2 = UnicodeRange::new(0x0500, 0x05FF);
    let merged = range1.merge(&range2);
    assert!(merged.is_none(), "Separate ranges should not merge");
}

#[test]
fn test_intersects_self() {
    let range = UnicodeRange::new(0x0370, 0x03FF);
    assert!(range.intersects(&range), "Range should intersect with itself");
}

#[test]
fn test_intersects_reversed() {
    let range1 = UnicodeRange::new(0x0370, 0x03FF);
    let range2 = UnicodeRange::new(0x03E0, 0x0420);
    assert!(range1.intersects(&range2));
    assert!(range2.intersects(&range1), "Intersection should be symmetric");
}

#[test]
fn test_boundary_values() {
    let range = UnicodeRange::new(0x0000, 0x10FFFF);
    assert!(range.contains(0x0000u32));
    assert!(range.contains(0x10FFFFu32));
    assert!(range.contains(0x0080u32));
}

#[test]
fn merge_is_commutative_on_examples() {
    let a = UnicodeRange::new(0x10, 0x20);
    let b = UnicodeRange::new(0x21, 0x30);
    let ab = a.merge(&b).unwrap();
    let ba = b.merge(&a).unwrap();
    assert_eq!((ab.start, ab.end), (ba.start, ba.end));
    assert_eq!((ab.start, ab.end), (0x10, 0x30));
}

#[test]
fn malicious_test_detect_zero_width_space() {
    assert_eq!(is_malicious(0x200B), Some("zero-width-space"));
    assert_eq!(is_malicious(0x0041), None);
}

#[test]
fn malicious_test_detect_bidi_override() {
    assert_eq!(is_malicious(0x202E), Some("right-to-left-override"));
    assert_eq!(is_malicious(0x202D), Some("left-to-right-override"));
}

#[test]
fn test_malicious_patterns_coverage() {
    let patterns = get_malicious_patterns();
    assert!(patterns.iter().any(|p| p.name == "zero-width-space"));
    assert!(patterns.iter().any(|p| p.name == "zero-width-non-joiner"));
    assert!(patterns.iter().any(|p| p.name == "right-to-left-override"));
    assert!(patterns.iter().any(|p| p.name == "left-to-right-override"));
    assert!(patterns.iter().any(|p| p.severity == Severity::Error));
    assert!(patterns.iter().any(|p| p.severity == Severity::Warning));
}

#[test]
fn test_pattern_matches() {
    let pattern = MaliciousPattern {
        name: "test".to_string(),
        category: MaliciousCategory::ZeroWidth,
        code_points: vec![0x200B, 0x200C],
        severity: Severity::Error,
        description: "test".to_string(),
    };
    assert!(pattern.matches(0x200B));
    assert!(pattern.matches(0x200C));
    assert!(!pattern.matches(0x200D));
}

#[test]
fn patterns_never_share_a_code_point() {
    let patterns = get_malicious_patterns();
    for (i, p) in patterns.iter().enumerate() {
        for q in patterns.iter().skip(i + 1) {
            for cp in &p.code_points {
                assert!(!q.code_points.contains(cp));
            }
        }
    }
}

#[test]
fn test_is_bidi_control() {
    for c in ['\u{202E}', '\u{202D}', '\u{202A}', '\u{202B}', '\u{202C}', '\u{2066}', '\u{2067}', '\u{2068}', '\u{2069}', '\u{200E}', '\u{200F}', '\u{061C}'] {
        assert!(is_bidi_control(c));
    }
    assert!(!is_bidi_control('a'));
    assert!(!is_bidi_control('A'));
    assert!(!is_bidi_control('\u{200B}'));
}

#[test]
fn test_is_invisible() {
    for c in ['\u{200B}', '\u{200C}', '\u{200D}', '\u{FEFF}', '\u{0300}', '\u{0301}', '\u{00A0}', '\u{2000}', '\u{2028}'] {
        assert!(is_invisible(c));
    }
    assert!(!is_invisible('a'));
    assert!(!is_invisible(' '));
}

#[test]
fn test_is_homoglyph_risk() {
    for c in ['\u{0430}', '\u{0435}', '\u{043E}', '\u{0440}', '\u{03B1}', '\u{03BF}', '\u{03C1}', '\u{FF21}', '\u{FF41}', '\u{1D400}', '\u{1D44E}'] {
        assert!(is_homoglyph_risk(c));
    }
    assert!(!is_homoglyph_risk('a'));
    assert!(!is_homoglyph_risk('A'));
    assert!(!is_homoglyph_risk('0'));
}

#[test]
fn test_get_category() {
    assert_eq!(get_category('\u{202E}'), "bidi-control");
    assert_eq!(get_category('\u{200B}'), "invisible");
    assert_eq!(get_category('\u{0300}'), "invisible");
    assert_eq!(get_category('\u{0430}'), "homoglyph");
    assert_eq!(get_category('\u{FF41}'), "homoglyph");
    assert_eq!(get_category('a'), "normal");
    assert_eq!(get_category('Z'), "normal");
    assert_eq!(get_category('5'), "normal");
}

#[test]
fn test_ascii_never_flagged() {
    for c in b'a'..=b'z' {
        assert!(!is_homoglyph_risk(c as char));
    }
    for c in b'A'..=b'Z' {
        assert!(!is_homoglyph_risk(c as char));
    }
    for c in b'0'..=b'9' {
        assert!(!is_homoglyph_risk(c as char));
    }
}

#[test]
fn category_follows_the_three_predicates() {
    for cp in [0x202Eu32, 0x061C, 0x200B, 0x00A0, 0x0300, 0x0430, 0xFF21, 0x1D400, 0x41, 0x4E00] {
        let c = char::from_u32(cp).unwrap();
        let expected = if is_bidi_control(c) {
            "bidi-control"
        } else if is_invisible(c) {
            "invisible"
        } else if is_homoglyph_risk(c) {
            "homoglyph"
        } else {
            "normal"
        };
        assert_eq!(get_category(c), expected);
        let hits = [is_bidi_control(c), is_invisible(c), is_homoglyph_risk(c)].iter().filter(|b| **b).count();
        assert!(hits <= 1);
    }
}
