//! Decoding file contents and finding malicious code points in them.

pub mod encoding;
pub mod file_scanner;
pub mod git_diff;
pub mod parallel;
pub mod unicode_detector;
pub mod walker;
