//! Command-line arguments as plain data, with their checks and conversions.

use vstd::prelude::*;
use crate::cli::output::ColorMode;
use crate::scanner::encoding::DetectedEncoding;
use crate::unicode::malicious::Severity;

verus! {

/// The parsed command line.
#[derive(Debug, Clone)]
pub struct Args {
    pub command: Option<Command>,
    /// Configuration file path.
    pub config: Option<String>,
    pub format: OutputFormat,
    pub color: ColorOption,
    /// Deprecated spelling of `--color never`.
    pub no_color: bool,
    pub quiet: bool,
    pub verbose: bool,
    /// Minimum severity to report.
    pub severity: Option<SeverityLevel>,
}

/// A subcommand.
#[derive(Debug, Clone)]
pub enum Command {
    /// Scan files for malicious Unicode.
    Scan { paths: Vec<String>, diff: bool, jobs: Option<usize>, encoding: Option<EncodingOption> },
    /// Write a default configuration file.
    Init { output: String, force: bool },
    /// List the language presets.
    ListPresets,
    /// List the Unicode blocks, optionally filtered.
    ListBlocks { filter: Option<String> },
}

/// Output formats.
#[derive(Debug, Clone, Copy, PartialEq, Eq, Structural)]
pub enum OutputFormat {
    Human,
    Json,
    Markdown,
    Github,
    Gitlab,
}

/// The `--color` option.
#[derive(Debug, Clone, Copy, PartialEq, Eq, Structural)]
pub enum ColorOption {
    Auto,
    Always,
    Never,
}

/// The `--severity` option.
#[derive(Debug, Clone, Copy, PartialEq, Eq, Structural)]
pub enum SeverityLevel {
    Error,
    Warning,
    Info,
}

/// The `--encoding` option.
#[derive(Debug, Clone, Copy, PartialEq, Eq, Structural)]
pub enum EncodingOption {
    Utf8,
    Utf16Le,
    Utf16Be,
    Utf32Le,
    Utf32Be,
}

/// The cleaning preset chosen on the command line.
#[derive(Debug, Clone, Copy, PartialEq, Eq, Structural)]
pub enum CleanPolicyPreset {
    Strict,
    Lossy,
    ReportOnly,
}

impl ColorOption {
    /// The color mode of this option.
    pub fn to_color_mode(self) -> (m: ColorMode)
        ensures
            m == match self {
                ColorOption::Auto => ColorMode::Auto,
                ColorOption::Always => ColorMode::Always,
                ColorOption::Never => ColorMode::Never,
            },
    {
        match self {
            ColorOption::Auto => ColorMode::Auto,
            ColorOption::Always => ColorMode::Always,
            ColorOption::Never => ColorMode::Never,
        }
    }
}

impl SeverityLevel {
    /// The severity this level filters at.
    pub fn to_severity(self) -> (s: Severity)
        ensures
            s == match self {
                SeverityLevel::Error => Severity::Error,
                SeverityLevel::Warning => Severity::Warning,
                SeverityLevel::Info => Severity::Info,
            },
    {
        match self {
            SeverityLevel::Error => Severity::Error,
            SeverityLevel::Warning => Severity::Warning,
            SeverityLevel::Info => Severity::Info,
        }
    }
}

impl EncodingOption {
    /// The encoding this option forces.
    pub fn to_detected_encoding(self) -> (e: DetectedEncoding)
        ensures
            e == match self {
                EncodingOption::Utf8 => DetectedEncoding::Utf8,
                EncodingOption::Utf16Le => DetectedEncoding::Utf16Le,
                EncodingOption::Utf16Be => DetectedEncoding::Utf16Be,
                EncodingOption::Utf32Le => DetectedEncoding::Utf32Le,
                EncodingOption::Utf32Be => DetectedEncoding::Utf32Be,
            },
    {
        match self {
            EncodingOption::Utf8 => DetectedEncoding::Utf8,
            EncodingOption::Utf16Le => DetectedEncoding::Utf16Le,
            EncodingOption::Utf16Be => DetectedEncoding::Utf16Be,
            EncodingOption::Utf32Le => DetectedEncoding::Utf32Le,
            EncodingOption::Utf32Be => DetectedEncoding::Utf32Be,
        }
    }
}

/// The error, if any, that argument validation reports.
pub open spec fn validation_error(command: Option<Command>) -> Option<Seq<char>> {
    match command {
        Some(Command::Scan { paths, jobs, .. }) => if paths@.len() == 0 {
            Some("At least one path must be provided"@)
        } else if jobs == Some(0usize) {
            Some("Number of jobs must be at least 1"@)
        } else {
            None
        },
        _ => None,
    }
}

impl Args {
    /// Check the subcommand's arguments: a scan needs a path and at least one
    /// job.
    pub fn validate(&self) -> (r: Result<(), String>)
        ensures
            match validation_error(self.command) {
                Some(m) => r matches Err(e) && e@ == m,
                None => r is Ok,
            },
    {
        if let Some(Command::Scan { paths, jobs, .. }) = &self.command {
            if paths.len() == 0 {
                return Err(String::from_str("At least one path must be provided"));
            }
            if let Some(j) = jobs {
                if *j == 0 {
                    return Err(String::from_str("Number of jobs must be at least 1"));
                }
            }
        }
        Ok(())
    }

    /// The subcommand, a scan of `.` when none was given.
    pub fn get_command(&self) -> (c: Command)
        ensures
            match self.command {
                Some(Command::Scan { paths, diff, jobs, encoding }) => c matches Command::Scan {
                    paths: p2,
                    diff: d2,
                    jobs: j2,
                    encoding: e2,
                } && p2@ == paths@ && d2 == diff && j2 == jobs && e2 == encoding,
                Some(Command::Init { output, force }) => c matches Command::Init {
                    output: o2,
                    force: f2,
                } && o2@ == output@ && f2 == force,
                Some(Command::ListPresets) => c is ListPresets,
                Some(Command::ListBlocks { filter }) => c matches Command::ListBlocks {
                    filter: f2,
                } && f2 == filter,
                None => c matches Command::Scan { paths, diff, jobs, encoding } && paths@.len()
                    == 1 && paths@[0]@ == "."@ && !diff && jobs is None && encoding is None,
            },
    {
        match &self.command {
            Some(Command::Scan { paths, diff, jobs, encoding }) => {
                let mut p: Vec<String> = Vec::new();
                let mut i: usize = 0;
                while i < paths.len()
                    invariant
                        i <= paths.len(),
                        p@ == paths@.take(i as int),
                    decreases paths.len() - i,
                {
                    p.push(paths[i].clone());
                    assert(p@ =~= paths@.take(i + 1));
                    i = i + 1;
                }
                assert(p@ =~= paths@);
                Command::Scan { paths: p, diff: *diff, jobs: *jobs, encoding: *encoding }
            },
            Some(Command::Init { output, force }) => Command::Init {
                output: output.clone(),
                force: *force,
            },
            Some(Command::ListPresets) => Command::ListPresets,
            Some(Command::ListBlocks { filter }) => Command::ListBlocks {
                filter: match filter {
                    Some(f) => Some(f.clone()),
                    None => None,
                },
            },
            None => {
                let mut paths: Vec<String> = Vec::new();
                paths.push(String::from_str("."));
                Command::Scan { paths, diff: false, jobs: None, encoding: None }
            },
        }
    }

    /// The color mode: never when `--no-color` was given, else `--color`.
    pub fn get_color_mode(&self) -> (m: ColorMode)
        ensures
            m == if self.no_color {
                ColorMode::Never
            } else {
                match self.color {
                    ColorOption::Auto => ColorMode::Auto,
                    ColorOption::Always => ColorMode::Always,
                    ColorOption::Never => ColorMode::Never,
                }
            },
    {
        if self.no_color {
            ColorMode::Never
        } else {
            self.color.to_color_mode()
        }
    }
}

} // verus!
