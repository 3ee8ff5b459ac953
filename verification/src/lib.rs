//! Detection of malicious Unicode characters in source code: zero-width
//! characters, bidirectional overrides, homoglyphs and code points outside a
//! configured allowlist.

pub mod cleaner;
pub mod cli;
pub mod config;
pub mod error;
pub mod paths;
pub mod report;
pub mod scanner;
pub mod text;
pub mod unicode;

pub use error::Error;
pub use report::{ScanResult, Violation};
