use unicleaner::cleaner::policy::{CleanAction, CleanPolicy};
use unicleaner::cleaner::{
    clean, decide_action, disallowed_pattern, explicitly_denied_pattern, is_allowed, needs_mutation, CleanOutput,
};
use unicleaner::cli::clean::{clean_exit_code, is_report_only_policy, reads_stdin, resolve_policy};
use unicleaner::cli::args::CleanPolicyPreset;
use unicleaner::unicode::malicious::{MaliciousCategory, Severity};
use unicleaner::unicode::ranges::UnicodeRange;

#[test]
fn needs_mutation_empty() {
    assert!(!needs_mutation("", &CleanPolicy::strict()));
}

#[test]
fn needs_mutation_clean_ascii() {
    assert!(!needs_mutation("plain ascii", &CleanPolicy::strict()));
}

#[test]
fn needs_mutation_with_zwsp() {
    assert!(needs_mutation("hi\u{200B}there", &CleanPolicy::strict()));
}

#[test]
fn needs_mutation_respects_denied_list() {
    let policy = CleanPolicy::strict().with_denied(&[0x00E9u32]);
    assert!(needs_mutation("caf\u{00E9}", &policy));
}

#[test]
fn decide_action_returns_none_for_safe_codepoint() {
    let r = decide_action(b'a' as u32, &CleanPolicy::strict());
    assert!(r.is_none());
}

#[test]
fn decide_action_uses_per_category_override() {
    let policy = CleanPolicy::strict().with_action(MaliciousCategory::ZeroWidth, CleanAction::Replace('?'));
    let r = decide_action(0x200B, &policy).expect("ZWSP is malicious");
    assert_eq!(r.action, CleanAction::Replace('?'));
}

#[test]
fn decide_action_falls_through_to_default() {
    let policy = CleanPolicy::lossy();
    let r = decide_action(0x200B, &policy).expect("ZWSP is malicious");
    assert_eq!(r.action, CleanAction::Replace('\u{FFFD}'));
}

#[test]
fn decide_action_returns_synthetic_pattern_for_denied_list() {
    let policy = CleanPolicy::strict().with_denied(&[0x00E9u32]);
    let r = decide_action(0x00E9, &policy).expect("denied list match");
    assert_eq!(r.pattern().name, "explicitly-denied");
    assert_eq!(r.pattern().category, MaliciousCategory::NonStandard);
}

#[test]
fn invariant_unmodified_means_byte_equal_output() {
    let input = "plain ascii";
    let r = clean(input, &CleanPolicy::strict());
    assert!(!r.modified);
    assert_eq!(r.output.as_ref(), input);
}

#[test]
fn invariant_clean_input_borrows() {
    let input = "plain ascii";
    let r = clean(input, &CleanPolicy::strict());
    assert!(matches!(r.output, CleanOutput::Borrowed(_)));
}

#[test]
fn nfc_already_normalized_input_borrows_when_clean() {
    let input = "plain ascii";
    let r = clean(input, &CleanPolicy::strict().with_nfc(true));
    assert!(matches!(r.output, CleanOutput::Borrowed(_)));
    assert!(!r.modified);
}

#[test]
fn clean_handles_explicitly_denied_codepoint() {
    let policy = CleanPolicy::strict().with_denied(&[0x00E9u32]);
    let r = clean("caf\u{00E9}", &policy);
    assert_eq!(r.output.as_ref(), "caf");
    assert_eq!(r.violations.len(), 1);
    assert_eq!(r.violations[0].code_point, 0x00E9);
    assert_eq!(r.violations[0].pattern_name, "explicitly-denied");
}

#[test]
fn clean_deny_by_default_strips_outside_ranges() {
    let policy = CleanPolicy::strict().with_allowed_ranges(vec![UnicodeRange::new(0x0020, 0x007E)], true);
    let r = clean("hello\u{00E9}world", &policy);
    assert!(!r.output.as_ref().contains('\u{00E9}'));
    assert!(r.violations.iter().any(|v| v.code_point == 0x00E9));
    assert_eq!(r.violations[0].pattern_name, "disallowed-code-point");
}

#[test]
fn clean_deny_by_default_default_allowlist_passes_ascii() {
    let policy = CleanPolicy::strict().with_allowed_ranges(Vec::new(), true);
    let policy = CleanPolicy { deny_by_default: true, allowed_ranges: None, ..policy };
    let r = clean("hello world", &policy);
    assert!(r.violations.is_empty());
    assert!(matches!(r.output, CleanOutput::Borrowed(_)));
}

#[test]
fn needs_mutation_deny_by_default_with_ranges() {
    let policy = CleanPolicy::strict().with_allowed_ranges(vec![UnicodeRange::new(0x0061, 0x007A)], true);
    assert!(needs_mutation("A", &policy));
    assert!(!needs_mutation("abc", &policy));
}

#[test]
fn explicitly_denied_pattern_is_singleton() {
    let p1 = explicitly_denied_pattern();
    let p2 = explicitly_denied_pattern();
    assert_eq!(p1.name, p2.name);
    assert_eq!(p1.name, "explicitly-denied");
    assert_eq!(p1.severity, Severity::Error);
}

#[test]
fn disallowed_pattern_is_singleton() {
    let p1 = disallowed_pattern();
    let p2 = disallowed_pattern();
    assert_eq!(p1.name, p2.name);
    assert_eq!(p1.name, "disallowed-code-point");
    assert_eq!(p1.severity, Severity::Error);
}

#[test]
fn is_allowed_falls_back_to_safe_ascii_when_no_ranges() {
    assert!(is_allowed(0x0041, None));
    assert!(!is_allowed(0x00E9, None));
}

#[test]
fn is_allowed_uses_provided_ranges() {
    let ranges = [UnicodeRange::new(0x0061, 0x007A)];
    assert!(is_allowed(0x0061, Some(&ranges)));
    assert!(!is_allowed(0x0041, Some(&ranges)));
}

#[test]
fn strict_clean_removes_and_is_idempotent() {
    let once = clean("a\u{200B}b\u{202E}c", &CleanPolicy::strict());
    assert_eq!(once.output.as_ref(), "abc");
    assert!(once.modified);
    assert_eq!(once.violations.len(), 2);
    let text = once.output.as_ref().to_string();
    let twice = clean(&text, &CleanPolicy::strict());
    assert!(!twice.modified);
    assert_eq!(twice.output.as_ref(), "abc");
}

#[test]
fn replacing_keeps_the_character_count() {
    let r = clean("x\u{200B}y\u{200C}", &CleanPolicy::lossy());
    assert_eq!(r.output.as_ref(), "x\u{FFFD}y\u{FFFD}");
    assert_eq!(r.output.as_ref().chars().count(), 4);
}

#[test]
fn report_only_never_modifies() {
    let r = clean("x\u{200B}y", &CleanPolicy::report_only());
    assert!(!r.modified);
    assert_eq!(r.output.as_ref(), "x\u{200B}y");
    assert_eq!(r.violations.len(), 1);
}

#[test]
fn nfc_normalizes_when_asked() {
    let r = clean("e\u{0301}", &CleanPolicy::report_only().with_nfc(true));
    assert!(r.modified);
    assert_eq!(r.output.as_ref(), "\u{00E9}");
}

#[test]
fn strict_defaults_to_strip() {
    let p = CleanPolicy::strict();
    assert_eq!(p.default_action, CleanAction::Strip);
    assert!(!p.normalize_nfc);
    assert!(p.per_category.is_empty());
    assert!(p.denied_code_points.is_empty());
    assert!(p.allowed_ranges.is_none());
    assert!(!p.deny_by_default);
}

#[test]
fn lossy_defaults_to_replace_fffd() {
    let p = CleanPolicy::lossy();
    assert_eq!(p.default_action, CleanAction::Replace('\u{FFFD}'));
    assert!(!p.normalize_nfc);
}

#[test]
fn report_only_defaults_to_keep_with_mark() {
    let p = CleanPolicy::report_only();
    assert_eq!(p.default_action, CleanAction::KeepWithMark);
    assert!(!p.normalize_nfc);
}

#[test]
fn with_action_overrides_per_category() {
    let p = CleanPolicy::strict().with_action(MaliciousCategory::BidiOverride, CleanAction::Replace('?'));
    assert_eq!(p.effective_action(MaliciousCategory::BidiOverride), CleanAction::Replace('?'));
}

#[test]
fn effective_action_falls_through_to_default() {
    let p = CleanPolicy::lossy();
    assert_eq!(p.effective_action(MaliciousCategory::ZeroWidth), CleanAction::Replace('\u{FFFD}'));
}

#[test]
fn presets_are_equal_to_themselves() {
    assert_eq!(CleanPolicy::strict(), CleanPolicy::strict());
    assert_eq!(CleanPolicy::lossy(), CleanPolicy::lossy());
    assert_eq!(CleanPolicy::report_only(), CleanPolicy::report_only());
}

#[test]
fn presets_are_distinct() {
    assert_ne!(CleanPolicy::strict(), CleanPolicy::lossy());
    assert_ne!(CleanPolicy::strict(), CleanPolicy::report_only());
}

#[test]
fn with_nfc_toggles_flag() {
    let p = CleanPolicy::strict().with_nfc(true);
    assert!(p.normalize_nfc);
    let p = p.with_nfc(false);
    assert!(!p.normalize_nfc);
}

#[test]
fn with_denied_extends_list() {
    let p = CleanPolicy::strict().with_denied(&[0x2028u32, 0x2029]);
    assert_eq!(p.denied_code_points, vec![0x2028, 0x2029]);
}

#[test]
fn with_default_action_replaces_default() {
    let p = CleanPolicy::strict().with_default_action(CleanAction::KeepWithMark);
    assert_eq!(p.default_action, CleanAction::KeepWithMark);
}

#[test]
fn resolve_policy_preset_strict() {
    let p = resolve_policy(CleanPolicyPreset::Strict, false, None);
    assert_eq!(p.default_action, CleanAction::Strip);
    assert!(!p.normalize_nfc);
}

#[test]
fn resolve_policy_preset_lossy_with_nfc() {
    let p = resolve_policy(CleanPolicyPreset::Lossy, true, None);
    assert_eq!(p.default_action, CleanAction::Replace('\u{FFFD}'));
    assert!(p.normalize_nfc);
}

#[test]
fn resolve_policy_preset_report_only() {
    let p = resolve_policy(CleanPolicyPreset::ReportOnly, false, None);
    assert_eq!(p.default_action, CleanAction::KeepWithMark);
}

#[test]
fn resolve_policy_uses_preset_without_config() {
    let p = resolve_policy(CleanPolicyPreset::Lossy, false, None);
    assert_eq!(p.default_action, CleanAction::Replace('\u{FFFD}'));
}

#[test]
fn resolve_policy_prefers_configured_policy() {
    let configured = CleanPolicy::report_only().with_nfc(true);
    let p = resolve_policy(CleanPolicyPreset::Strict, false, Some(configured));
    assert_eq!(p.default_action, CleanAction::KeepWithMark);
    assert!(p.normalize_nfc);
}

#[test]
fn is_report_only_policy_detects_keep_with_mark_default() {
    assert!(is_report_only_policy(&CleanPolicy::report_only()));
}

#[test]
fn is_report_only_policy_rejects_strict() {
    assert!(!is_report_only_policy(&CleanPolicy::strict()));
}

#[test]
fn is_report_only_policy_rejects_mixed_overrides() {
    let p = CleanPolicy::report_only().with_action(MaliciousCategory::ZeroWidth, CleanAction::Strip);
    assert!(!is_report_only_policy(&p));
}

#[test]
fn is_report_only_policy_accepts_all_keep_overrides() {
    let p = CleanPolicy::report_only().with_action(MaliciousCategory::ZeroWidth, CleanAction::KeepWithMark);
    assert!(is_report_only_policy(&p));
}

#[test]
fn clean_exit_code_reports_violations_only_in_report_mode() {
    let input = "a\u{200B}";
    let report = CleanPolicy::report_only();
    let r = clean(input, &report);
    assert_eq!(clean_exit_code(&report, &r), 1);
    let strict = CleanPolicy::strict();
    let r = clean(input, &strict);
    assert_eq!(clean_exit_code(&strict, &r), 0);
    assert!(reads_stdin(None));
    assert!(reads_stdin(Some("-")));
    assert!(!reads_stdin(Some("file.txt")));
}
