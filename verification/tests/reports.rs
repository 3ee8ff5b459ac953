use unicleaner::cli::args::OutputFormat;
use unicleaner::report::formatter::{format_human, format_severity, format_violations};
use unicleaner::report::markdown::{format_markdown, severity_badge};
use unicleaner::report::violation::{ErrorType, ScanError, Violation};
use unicleaner::report::{json_style, summary_lines, ScanDuration, ScanResult};
use unicleaner::scanner::encoding::DetectedEncoding;
use unicleaner::unicode::malicious::{MaliciousCategory, Severity};

fn create_test_violation_at(file: &str, line: usize, severity: Severity) -> Violation {
    Violation::new(
        file.to_string(),
        line,
        5,
        0,
        0x200B,
        "zero-width-space".to_string(),
        MaliciousCategory::ZeroWidth,
        severity,
        "Zero-width space detected".to_string(),
    )
}

fn create_test_violation(severity: Severity) -> Violation {
    Violation::new(
        "test.rs".to_string(),
        1,
        1,
        0,
        0x200B,
        "test".to_string(),
        MaliciousCategory::ZeroWidth,
        severity,
        "Test violation".to_string(),
    )
}

fn create_test_scan_result() -> ScanResult {
    ScanResult {
        violations: Vec::new(),
        files_scanned: 0,
        files_clean: 0,
        files_with_violations: 0,
        errors: Vec::new(),
        duration: ScanDuration::from_secs(0),
        config_used: "test.toml".to_string(),
    }
}

#[test]
fn test_violation_creation() {
    let violation = Violation::new(
        "test.rs".to_string(),
        42,
        15,
        0,
        0x200B,
        "zero-width-space".to_string(),
        MaliciousCategory::ZeroWidth,
        Severity::Error,
        "Zero-width space detected".to_string(),
    );
    assert_eq!(violation.line, 42);
    assert_eq!(violation.column, 15);
    assert_eq!(violation.code_point, 0x200B);
    assert_eq!(violation.code_point_string(), "U+200B");
    assert_eq!(violation.severity, Severity::Error);
    assert_eq!(violation.encoding_name(), "UTF-8");
}

#[test]
fn test_violation_with_context() {
    let violation = create_test_violation(Severity::Error).with_context("let user\u{200B}name".to_string());
    assert!(!violation.context.is_empty());
    assert!(violation.context.contains("user"));
}

#[test]
fn test_violation_with_encoding() {
    let violation = create_test_violation(Severity::Error).with_encoding(DetectedEncoding::Utf16Le);
    assert_eq!(violation.encoding_name(), "UTF-16 LE");
}

#[test]
fn test_violation_with_utf32_encoding() {
    let violation = Violation::new(
        "test.rs".to_string(),
        1,
        1,
        0,
        0x202E,
        "bidi-override".to_string(),
        MaliciousCategory::BidiOverride,
        Severity::Error,
        "Bidirectional override detected".to_string(),
    )
    .with_encoding(DetectedEncoding::Utf32Be);
    assert_eq!(violation.encoding_name(), "UTF-32 BE");
}

#[test]
fn test_scan_error_creation() {
    let error = ScanError::new("binary.dat".to_string(), ErrorType::ParseError, "Binary file detected".to_string());
    assert_eq!(error.error_type, ErrorType::ParseError);
    assert!(error.message.contains("Binary"));
}

#[test]
fn code_point_string_pads_and_grows() {
    let mut v = create_test_violation(Severity::Info);
    v.code_point = 0x41;
    assert_eq!(v.code_point_string(), "U+0041");
    v.code_point = 0x1F600;
    assert_eq!(v.code_point_string(), "U+1F600");
}

#[test]
fn test_scan_result_passed() {
    let result = create_test_scan_result();
    assert_eq!(result.files_scanned, 0);
    assert_eq!(result.files_clean, 0);
    assert_eq!(result.files_with_violations, 0);
    assert_eq!(result.violations.len(), 0);
    assert!(result.passed());
}

#[test]
fn test_total_violations() {
    let mut result = create_test_scan_result();
    result.violations.push(create_test_violation(Severity::Error));
    result.violations.push(create_test_violation(Severity::Warning));
    assert_eq!(result.total_violations(), 2);
}

#[test]
fn test_filter_by_severity() {
    let mut result = create_test_scan_result();
    result.files_scanned = 1;
    result.violations.push(create_test_violation(Severity::Error));
    result.violations.push(create_test_violation(Severity::Warning));
    result.violations.push(create_test_violation(Severity::Info));
    let filtered = result.filter_by_severity(Severity::Warning);
    assert_eq!(filtered.violations.len(), 2);
}

#[test]
fn test_exit_code_3_errors_only() {
    let mut result = create_test_scan_result();
    result.errors.push(ScanError::new("missing.rs".to_string(), ErrorType::IoError, "File not found".to_string()));
    assert_eq!(result.exit_code(), 3);
}

#[test]
fn test_exit_code_1_violations_with_errors() {
    let mut result = create_test_scan_result();
    result.violations.push(create_test_violation(Severity::Error));
    result.errors.push(ScanError::new("missing.rs".to_string(), ErrorType::IoError, "File not found".to_string()));
    assert_eq!(result.exit_code(), 1);
}

#[test]
fn test_exit_code_0_success() {
    let result = create_test_scan_result();
    assert_eq!(result.exit_code(), 0);
}

#[test]
fn test_filter_by_severity_error_only() {
    let mut result = create_test_scan_result();
    result.files_scanned = 1;
    result.violations.push(create_test_violation(Severity::Error));
    result.violations.push(create_test_violation(Severity::Warning));
    let filtered = result.filter_by_severity(Severity::Error);
    assert_eq!(filtered.violations.len(), 1);
}

#[test]
fn filter_recounts_files_by_path() {
    let mut result = create_test_scan_result();
    result.files_scanned = 5;
    result.violations.push(create_test_violation_at("a/b.rs", 1, Severity::Error));
    result.violations.push(create_test_violation_at("a//b.rs", 2, Severity::Error));
    result.violations.push(create_test_violation_at("c.rs", 3, Severity::Info));
    result.errors.push(ScanError::new("d.rs".to_string(), ErrorType::IoError, "x".to_string()));
    let filtered = result.filter_by_severity(Severity::Warning);
    assert_eq!(filtered.violations.len(), 2);
    assert_eq!(filtered.files_with_violations, 1);
    assert_eq!(filtered.files_clean, 3);
}

#[test]
fn checked_filter_refuses_counts_that_do_not_fit() {
    let mut result = create_test_scan_result();
    result.violations.push(create_test_violation(Severity::Error));
    assert!(result.checked_filter_by_severity(Severity::Info).is_none());
}

#[test]
fn from_counts_computes_clean_files() {
    let vs = vec![create_test_violation_at("x.rs", 1, Severity::Error), create_test_violation_at("x.rs", 2, Severity::Error)];
    let r = ScanResult::from_counts(4, vs, vec![], ScanDuration::from_millis(1500), "c.toml".to_string()).unwrap();
    assert_eq!(r.files_with_violations, 1);
    assert_eq!(r.files_clean, 3);
    assert_eq!(r.duration, ScanDuration { secs: 1, nanos: 500_000_000 });
}

#[test]
fn test_format_human_no_violations() {
    let result = ScanResult {
        violations: vec![],
        files_scanned: 10,
        files_clean: 10,
        files_with_violations: 0,
        errors: vec![],
        duration: ScanDuration::from_secs(1),
        config_used: "unicleaner.toml".to_string(),
    };
    let output = format_human(&result, false, false);
    assert!(output.contains("PASSED"));
    assert!(output.contains("Files scanned: 10"));
    assert!(output.contains("Files clean: 10"));
    assert!(output.contains("Duration: 1.00s"));
    assert!(output.ends_with("Exit code: 0\n"));
}

#[test]
fn test_format_human_with_violations() {
    let violation = Violation::new(
        "test.rs".to_string(),
        10,
        5,
        0,
        0x200B,
        "zero-width-space".to_string(),
        MaliciousCategory::ZeroWidth,
        Severity::Error,
        "Zero-width space detected".to_string(),
    );
    let result = ScanResult {
        violations: vec![violation],
        files_scanned: 10,
        files_clean: 9,
        files_with_violations: 1,
        errors: vec![],
        duration: ScanDuration::from_secs(1),
        config_used: "unicleaner.toml".to_string(),
    };
    let output = format_human(&result, false, false);
    assert!(output.contains("FAILED"));
    assert!(output.contains("test.rs"));
    assert!(output.contains("Total violations: 1"));
    assert!(output.starts_with("ERROR test.rs:10:5 Zero-width space detected\n"));
}

#[test]
fn test_format_severity() {
    assert_eq!(format_severity(Severity::Error, false), "ERROR");
    assert_eq!(format_severity(Severity::Warning, false), "WARNING");
    assert_eq!(format_severity(Severity::Info, false), "INFO");
}

#[test]
fn colored_severity_uses_ansi_escapes() {
    assert_eq!(format_severity(Severity::Error, true), "\x1b[1m\x1b[31mERROR\x1b[39m\x1b[0m");
    assert_eq!(format_severity(Severity::Warning, true), "\x1b[33mWARNING\x1b[39m");
    assert_eq!(format_severity(Severity::Info, true), "\x1b[34mINFO\x1b[39m");
}

#[test]
fn test_format_violations_verbose() {
    let violation = create_test_violation_at("test.rs", 10, Severity::Error);
    let output = format_violations(&[violation], false, true);
    assert!(output.contains("U+200B"));
    assert!(output.contains("zero-width-space"));
    assert!(output.contains("Category:"));
    assert!(output.contains("  Category: ZeroWidth\n"));
}

#[test]
fn test_format_violations_non_verbose() {
    let violation = create_test_violation_at("test.rs", 10, Severity::Error);
    let output = format_violations(&[violation], false, false);
    assert!(output.contains("test.rs"));
    assert!(!output.contains("U+200B"));
}

fn create_test_result(violations: Vec<Violation>) -> ScanResult {
    let r = ScanResult::from_counts(10, violations, vec![], ScanDuration::from_millis(42), "unicleaner.toml".to_string());
    r.unwrap()
}

#[test]
fn test_markdown_no_violations() {
    let result = create_test_result(vec![]);
    let output = format_markdown(&result, false);
    assert!(output.contains("# Unicleaner Scan: PASSED"));
    assert!(output.contains("No violations found."));
    assert!(output.contains("| Files scanned | 10 |"));
}

#[test]
fn test_markdown_with_violations() {
    let result = create_test_result(vec![
        create_test_violation_at("src/main.rs", 10, Severity::Error),
        create_test_violation_at("src/main.rs", 20, Severity::Warning),
        create_test_violation_at("src/lib.rs", 5, Severity::Info),
    ]);
    let output = format_markdown(&result, false);
    assert!(output.contains("# Unicleaner Scan: FAILED"));
    assert!(output.contains("## `src/main.rs`"));
    assert!(output.contains("## `src/lib.rs`"));
    assert!(output.contains("ERROR"));
    assert!(output.contains("WARNING"));
    assert!(output.contains("INFO"));
    assert!(output.contains("**Line 10:5**"));
    assert!(output.find("## `src/lib.rs`").unwrap() < output.find("## `src/main.rs`").unwrap());
}

#[test]
fn markdown_orders_files_as_paths() {
    let result = create_test_result(vec![
        create_test_violation_at("src/a.rs", 1, Severity::Error),
        create_test_violation_at("src/a/b.rs", 2, Severity::Error),
    ]);
    let output = format_markdown(&result, false);
    assert!(output.find("## `src/a/b.rs`").unwrap() < output.find("## `src/a.rs`").unwrap());
}

#[test]
fn test_markdown_verbose() {
    let result = create_test_result(vec![create_test_violation_at("test.rs", 1, Severity::Error)]);
    let output = format_markdown(&result, true);
    assert!(output.contains("`U+200B`"));
    assert!(output.contains("`zero-width-space`"));
    assert!(output.contains("`ZeroWidth`"));
}

#[test]
fn test_markdown_summary_table() {
    let result = create_test_result(vec![]);
    let output = format_markdown(&result, false);
    assert!(output.contains("## Summary"));
    assert!(output.contains("| Metric | Value |"));
    assert!(output.contains("| Duration |"));
    assert!(output.contains("| Duration | 0.04s |"));
}

#[test]
fn test_severity_badges() {
    assert!(severity_badge(Severity::Error).contains("ERROR"));
    assert!(severity_badge(Severity::Warning).contains("WARNING"));
    assert!(severity_badge(Severity::Info).contains("INFO"));
}

#[test]
fn format_dispatches_and_cuts_quiet_output() {
    let result = create_test_result(vec![create_test_violation_at("a.rs", 3, Severity::Error)]);
    let quiet = result.format(OutputFormat::Human, false, true, Ok(String::new())).unwrap();
    assert!(quiet.starts_with("\nScan Result: FAILED"));
    let md = result.format(OutputFormat::Markdown, false, true, Ok(String::new())).unwrap();
    assert!(md.starts_with("## Summary"));
    let gh = result.format(OutputFormat::Github, false, false, Ok(String::new())).unwrap();
    assert_eq!(gh, "::error file=a.rs,line=3,col=5::Zero-width space detected\n");
    let err = result.format(OutputFormat::Json, false, false, Err("boom".to_string())).unwrap_err();
    assert_eq!(err, "Error formatting JSON: boom");
    assert_eq!(json_style(OutputFormat::Json, true), Some(false));
    assert_eq!(json_style(OutputFormat::Gitlab, true), Some(true));
    assert_eq!(json_style(OutputFormat::Human, false), None);
}

#[test]
fn summary_lines_start_at_the_marker() {
    let lines = summary_lines("a\nb\nScan Result: OK\nc\n", "Scan Result:");
    assert_eq!(lines, vec!["Scan Result: OK".to_string(), "c".to_string()]);
    assert!(summary_lines("a\nb\n", "Scan Result:").is_empty());
}
