use unicleaner::config::Configuration;
use unicleaner::error::{Error, IoFailure};
use unicleaner::report::violation::{ErrorType, Violation};
use unicleaner::scanner::file_scanner::scan_file_with_config;
use unicleaner::scanner::git_diff::{changed_files, filter_changed_files, output_paths, select_changed_files};
use unicleaner::scanner::parallel::{classify_error, collect_results, error_type_rank, sort_violations};
use unicleaner::scanner::walker::{walk_paths, PathEntry, WalkConfig};
use unicleaner::unicode::malicious::{MaliciousCategory, Severity};

fn entry_for(path: &str) -> PathEntry {
    let p = std::path::Path::new(path);
    if p.is_file() {
        PathEntry::File(path.to_string())
    } else if p.is_dir() {
        PathEntry::Dir(path.to_string(), Vec::new())
    } else {
        PathEntry::Missing(path.to_string())
    }
}

#[test]
fn test_walk_nonexistent_path() {
    let config = WalkConfig::default();
    assert!(config.threads >= 1);
    let result = walk_paths(vec![entry_for("/nonexistent/path")]);
    assert!(result.is_err());
    assert_eq!(result.unwrap_err().to_text(), "IO error: Path not found: /nonexistent/path");
}

#[test]
fn walk_keeps_files_and_directory_listings_in_order() {
    let files = walk_paths(vec![
        PathEntry::File("a.rs".to_string()),
        PathEntry::Dir("d".to_string(), vec!["d/x.rs".to_string(), "d/y.rs".to_string()]),
    ])
    .unwrap();
    assert_eq!(files, vec!["a.rs", "d/x.rs", "d/y.rs"]);
}

#[test]
fn test_classify_error_encoding() {
    let e = Error::Encoding("bad encoding".to_string());
    assert_eq!(classify_error(&e), ErrorType::EncodingError);
}

#[test]
fn test_classify_error_permission_denied() {
    let e = Error::Io(IoFailure { permission_denied: true, message: "denied".to_string() });
    assert_eq!(classify_error(&e), ErrorType::PermissionDenied);
}

#[test]
fn test_classify_error_io() {
    let e = Error::Io(IoFailure { permission_denied: false, message: "missing".to_string() });
    assert_eq!(classify_error(&e), ErrorType::IoError);
}

#[test]
fn test_classify_error_config() {
    let e = Error::Config("bad config".to_string());
    assert_eq!(classify_error(&e), ErrorType::ParseError);
}

#[test]
fn test_classify_error_other() {
    let e = Error::Git("git failure".to_string());
    assert_eq!(classify_error(&e), ErrorType::IoError);
}

#[test]
fn test_error_type_rank_ordering() {
    assert!(error_type_rank(ErrorType::PermissionDenied) < error_type_rank(ErrorType::IoError));
    assert!(error_type_rank(ErrorType::IoError) < error_type_rank(ErrorType::EncodingError));
    assert!(error_type_rank(ErrorType::EncodingError) < error_type_rank(ErrorType::ParseError));
}

fn v(path: &str, line: usize, column: usize) -> Violation {
    Violation::new(path.to_string(), line, column, 0, 0x200B, "zero-width-space".to_string(), MaliciousCategory::ZeroWidth, Severity::Error, "x".to_string())
}

#[test]
fn test_scan_parallel_sorts_violations() {
    let config = Configuration::default();
    let outcomes = vec![
        ("b.txt".to_string(), scan_file_with_config("b.txt", "bad\u{200B}".as_bytes(), &config, None)),
        ("a.txt".to_string(), scan_file_with_config("a.txt", "bad\u{200B}".as_bytes(), &config, None)),
    ];
    let (violations, _) = collect_results(outcomes);
    assert!(violations.len() >= 2);
    assert_eq!(violations[0].file_path, "a.txt");
}

#[test]
fn sort_violations_orders_by_path_line_and_column() {
    let sorted = sort_violations(vec![v("b.rs", 1, 1), v("a.rs", 2, 1), v("a.rs", 1, 3), v("a.rs", 1, 2)]);
    let keys: Vec<(String, usize, usize)> = sorted.iter().map(|x| (x.file_path.clone(), x.line, x.column)).collect();
    assert_eq!(keys, vec![
        ("a.rs".to_string(), 1, 2),
        ("a.rs".to_string(), 1, 3),
        ("a.rs".to_string(), 2, 1),
        ("b.rs".to_string(), 1, 1),
    ]);
}

#[test]
fn test_scan_parallel_multiple_errors_sorted() {
    let outcomes = vec![
        ("z.rs".to_string(), Err(Error::Encoding("bad".to_string()))),
        ("a.rs".to_string(), Err(Error::Io(IoFailure { permission_denied: false, message: "gone".to_string() }))),
        ("m.rs".to_string(), Ok(vec![v("m.rs", 1, 1)])),
    ];
    let (violations, errors) = collect_results(outcomes);
    assert_eq!(violations.len(), 1);
    assert_eq!(errors.len(), 2);
    assert_eq!(errors[0].file_path, "a.rs");
    assert_eq!(errors[0].error_type, ErrorType::IoError);
    assert_eq!(errors[0].message, "IO error: gone");
    assert_eq!(errors[1].message, "Encoding error: bad");
}

#[test]
fn test_scan_files_parallel_with_violations() {
    let config = Configuration::default();
    let outcomes = vec![
        ("file1.txt".to_string(), scan_file_with_config("file1.txt", b"clean content", &config, None)),
        ("file2.txt".to_string(), scan_file_with_config("file2.txt", "bad\u{200B}".as_bytes(), &config, None)),
    ];
    let (violations, errors) = collect_results(outcomes);
    assert_eq!(violations.len(), 1);
    assert_eq!(errors.len(), 0);
}

#[test]
fn test_scan_files_parallel_empty() {
    let (violations, errors) = collect_results(Vec::new());
    assert_eq!(violations.len(), 0);
    assert_eq!(errors.len(), 0);
}

#[test]
fn config_allowlist_excuses_but_bidi_stays() {
    let mut config = Configuration::default();
    config.language_presets.insert("js".to_string(), "javascript".to_string());
    let found = scan_file_with_config("x.js", "caf\u{00E9} \u{202E}".as_bytes(), &config, None).unwrap();
    assert_eq!(found.len(), 1);
    assert_eq!(found[0].code_point, 0x202E);
}

#[test]
fn git_output_is_joined_onto_the_repository() {
    let paths = output_paths("/repo", b"src/a.rs\n\nb.rs\n");
    assert_eq!(paths, vec!["/repo/src/a.rs", "/repo/b.rs"]);
    let err = changed_files("/repo", false, b"", b"fatal: no", true, b"").unwrap_err();
    assert_eq!(err.to_text(), "Git error: git diff failed: fatal: no");
    let ok = changed_files("/repo", true, b"a.rs\n", b"", true, b"new.rs\n").unwrap();
    assert_eq!(ok, vec!["/repo/a.rs", "/repo/new.rs"]);
}

#[test]
fn test_filter_changed_files() {
    let files = vec!["./a.rs".to_string(), "b.rs".to_string()];
    let canonical = vec!["/r/a.rs".to_string(), "/r/b.rs".to_string()];
    let kept = filter_changed_files(files, &canonical, &["/r/a.rs".to_string()]);
    assert_eq!(kept, vec!["./a.rs"]);
}

#[test]
fn diff_selection_keeps_files_under_roots_sorted() {
    let changed = vec![
        ("/r/src/z.rs".to_string(), true, "/r/src/z.rs".to_string()),
        ("/r/docs/a.md".to_string(), true, "/r/docs/a.md".to_string()),
        ("/r/src/a.rs".to_string(), true, "/r/src/a.rs".to_string()),
        ("/r/src/gone.rs".to_string(), false, "/r/src/gone.rs".to_string()),
    ];
    let roots = vec![("/r/src".to_string(), true)];
    assert_eq!(select_changed_files(changed, &roots), vec!["/r/src/a.rs", "/r/src/z.rs"]);
}
