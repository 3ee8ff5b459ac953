use unicleaner::cli::args::{Args, ColorOption, Command, EncodingOption, OutputFormat, SeverityLevel};
use unicleaner::cli::output::{color_decision, ColorMode};
use unicleaner::scanner::encoding::DetectedEncoding;
use unicleaner::unicode::malicious::Severity;

/// The arguments a bare `unicleaner` command line gives.
fn bare() -> Args {
    Args {
        command: None,
        config: None,
        format: OutputFormat::Human,
        color: ColorOption::Auto,
        no_color: false,
        quiet: false,
        verbose: false,
        severity: None,
    }
}

fn scan(paths: &[&str], jobs: Option<usize>) -> Args {
    Args {
        command: Some(Command::Scan {
            paths: paths.iter().map(|p| p.to_string()).collect(),
            diff: false,
            jobs,
            encoding: None,
        }),
        ..bare()
    }
}

#[test]
fn test_args_validate_success() {
    let args = scan(&["src"], None);
    assert!(args.validate().is_ok());
}

#[test]
fn test_args_validate_jobs_zero() {
    let args = scan(&["."], Some(0));
    assert!(args.validate().is_err());
}

#[test]
fn test_encoding_option_conversion() {
    assert_eq!(EncodingOption::Utf8.to_detected_encoding(), DetectedEncoding::Utf8);
    assert_eq!(EncodingOption::Utf16Le.to_detected_encoding(), DetectedEncoding::Utf16Le);
    assert_eq!(EncodingOption::Utf32Be.to_detected_encoding(), DetectedEncoding::Utf32Be);
}

#[test]
fn test_color_option_auto() {
    let args = bare();
    assert!(matches!(args.color, ColorOption::Auto));
    assert_eq!(args.get_color_mode(), ColorMode::Auto);
}

#[test]
fn test_color_option_always() {
    let args = Args { color: ColorOption::Always, ..bare() };
    assert_eq!(args.get_color_mode(), ColorMode::Always);
}

#[test]
fn test_color_option_never() {
    let args = Args { color: ColorOption::Never, ..bare() };
    assert_eq!(args.get_color_mode(), ColorMode::Never);
}

#[test]
fn test_color_option_default() {
    let args = bare();
    assert_eq!(args.get_color_mode(), ColorMode::Auto);
}

#[test]
fn test_no_color_flag() {
    let args = Args { no_color: true, ..bare() };
    assert!(args.no_color);
    assert_eq!(args.get_color_mode(), ColorMode::Never);
}

#[test]
fn test_color_option_conversion() {
    assert_eq!(ColorOption::Auto.to_color_mode(), ColorMode::Auto);
    assert_eq!(ColorOption::Always.to_color_mode(), ColorMode::Always);
    assert_eq!(ColorOption::Never.to_color_mode(), ColorMode::Never);
}

#[test]
fn test_severity_level_conversion() {
    assert_eq!(SeverityLevel::Error.to_severity(), Severity::Error);
    assert_eq!(SeverityLevel::Warning.to_severity(), Severity::Warning);
    assert_eq!(SeverityLevel::Info.to_severity(), Severity::Info);
}

#[test]
fn test_color_mode_always() {
    assert!(color_decision(ColorMode::Always, false, false));
    assert!(color_decision(ColorMode::Always, true, true));
}

#[test]
fn test_color_mode_never() {
    assert!(!color_decision(ColorMode::Never, false, true));
    assert!(!color_decision(ColorMode::Never, true, false));
}

#[test]
fn auto_color_needs_a_terminal_and_no_no_color() {
    assert!(color_decision(ColorMode::Auto, false, true));
    assert!(!color_decision(ColorMode::Auto, true, true));
    assert!(!color_decision(ColorMode::Auto, false, false));
}

#[test]
fn get_command_defaults_to_scanning_the_current_directory() {
    match bare().get_command() {
        Command::Scan { paths, diff, jobs, encoding } => {
            assert_eq!(paths, vec![".".to_string()]);
            assert!(!diff);
            assert!(jobs.is_none());
            assert!(encoding.is_none());
        }
        _ => panic!("expected a scan"),
    }
}
