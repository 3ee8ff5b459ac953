//! Detected violations and scan errors.

use vstd::prelude::*;
use crate::scanner::encoding::{encoding_name_spec, DetectedEncoding};
use crate::text::{char_from_u32, hex_upper, is_scalar_value, push_hex4, zero_pad};
use crate::unicode::malicious::{MaliciousCategory, Severity};

verus! {

/// A malicious or disallowed code point found at a position of a file.
#[derive(Debug, Clone)]
pub struct Violation {
    pub file_path: String,
    /// Line number, starting at 1.
    pub line: usize,
    /// Character column within the line, starting at 1.
    pub column: usize,
    /// Byte offset of the character within its line (UTF-8).
    pub byte_offset: usize,
    pub code_point: u32,
    pub character: char,
    pub context: String,
    pub pattern_name: String,
    pub category: MaliciousCategory,
    pub severity: Severity,
    pub message: String,
    pub encoding: DetectedEncoding,
}

/// `c` is the character stored for code point `cp`: the code point itself
/// when it is a scalar value, else U+FFFD.
pub open spec fn is_display_char(c: char, cp: u32) -> bool {
    if is_scalar_value(cp) {
        c as u32 == cp
    } else {
        c == '\u{FFFD}'
    }
}

/// A code point written as `U+` and at least four upper-case hex digits.
pub open spec fn code_point_text(cp: u32) -> Seq<char> {
    "U+"@ + zero_pad(hex_upper(cp as nat), 4)
}

impl Violation {
    /// A violation with empty context and UTF-8 encoding.
    pub fn new(
        file_path: String,
        line: usize,
        column: usize,
        byte_offset: usize,
        code_point: u32,
        pattern_name: String,
        category: MaliciousCategory,
        severity: Severity,
        message: String,
    ) -> (v: Self)
        ensures
            v.file_path == file_path,
            v.line == line,
            v.column == column,
            v.byte_offset == byte_offset,
            v.code_point == code_point,
            is_display_char(v.character, code_point),
            v.context@ == Seq::<char>::empty(),
            v.pattern_name == pattern_name,
            v.category == category,
            v.severity == severity,
            v.message == message,
            v.encoding == DetectedEncoding::Utf8,
    {
        let character = match char_from_u32(code_point) {
            Some(c) => c,
            None => '\u{FFFD}',
        };
        Violation {
            file_path,
            line,
            column,
            byte_offset,
            code_point,
            character,
            context: String::new(),
            pattern_name,
            category,
            severity,
            message,
            encoding: DetectedEncoding::Utf8,
        }
    }

    /// The same violation with the given context.
    pub fn with_context(self, context: String) -> (v: Self)
        ensures
            v == (Violation { context, ..self }),
    {
        Violation { context, ..self }
    }

    /// The same violation with the given encoding.
    pub fn with_encoding(self, encoding: DetectedEncoding) -> (v: Self)
        ensures
            v == (Violation { encoding, ..self }),
    {
        Violation { encoding, ..self }
    }

    /// The code point as `U+XXXX`.
    pub fn code_point_string(&self) -> (s: String)
        ensures
            s@ == code_point_text(self.code_point),
    {
        let mut s = String::from_str("U+");
        push_hex4(&mut s, self.code_point as u64);
        s
    }

    /// The display name of the encoding the file was read in.
    pub fn encoding_name(&self) -> (s: &'static str)
        ensures
            s@ == encoding_name_spec(self.encoding),
    {
        self.encoding.name()
    }
}

/// Why a file could not be scanned.
#[derive(Debug, Clone, Copy, PartialEq, Eq, Hash, Structural)]
pub enum ErrorType {
    IoError,
    EncodingError,
    ParseError,
    PermissionDenied,
}

/// A file that could not be scanned.
#[derive(Debug, Clone)]
pub struct ScanError {
    pub file_path: String,
    pub error_type: ErrorType,
    pub message: String,
}

impl ScanError {
    pub fn new(file_path: String, error_type: ErrorType, message: String) -> (e: Self)
        ensures
            e.file_path == file_path,
            e.error_type == error_type,
            e.message == message,
    {
        ScanError { file_path, error_type, message }
    }
}

} // verus!
