//! The library's error type.

use vstd::prelude::*;

verus! {

/// An I/O failure, reduced to what the library decides on.
#[derive(Debug, Clone, PartialEq, Eq)]
pub struct IoFailure {
    /// The operating system refused access.
    pub permission_denied: bool,
    pub message: String,
}

/// Errors of the library.
#[derive(Debug, Clone, PartialEq, Eq)]
pub enum Error {
    Io(IoFailure),
    Config(String),
    Parse(String),
    Git(String),
    Encoding(String),
    Unicode(String),
}

/// The text of an error, as it is displayed.
pub open spec fn error_text(e: Error) -> Seq<char> {
    match e {
        Error::Io(f) => "IO error: "@ + f.message@,
        Error::Config(m) => "Configuration error: "@ + m@,
        Error::Parse(m) => "Parsing error: "@ + m@,
        Error::Git(m) => "Git error: "@ + m@,
        Error::Encoding(m) => "Encoding error: "@ + m@,
        Error::Unicode(m) => "Unicode error: "@ + m@,
    }
}

impl Error {
    /// The displayed text, such as `Encoding error: ...`.
    pub fn to_text(&self) -> (s: String)
        ensures
            s@ == error_text(*self),
    {
        let (prefix, msg): (&str, &String) = match self {
            Error::Io(f) => ("IO error: ", &f.message),
            Error::Config(m) => ("Configuration error: ", m),
            Error::Parse(m) => ("Parsing error: ", m),
            Error::Git(m) => ("Git error: ", m),
            Error::Encoding(m) => ("Encoding error: ", m),
            Error::Unicode(m) => ("Unicode error: ", m),
        };
        let mut s = String::from_str(prefix);
        s.append(msg.as_str());
        s
    }
}

} // verus!
