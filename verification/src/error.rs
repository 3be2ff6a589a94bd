//! The crate-wide error type reported to callers of the e-book loader.

use vstd::prelude::*;

verus! {

/// An error reported while loading an e-book.
#[derive(Debug, Clone, PartialEq, Eq)]
pub enum Error {
    /// No file was found on the path provided.
    FileNotFound(String),
    /// The e-book contained malformed data and could not be parsed.
    ParseError(String),
    /// An unsupported format was passed.
    Unsupported(&'static str),
}

/// Builds a file-not-found error.
pub fn to_fnf_error(file_path: String) -> (r: Error)
    ensures
        (r matches Error::FileNotFound(p) && p@ == file_path@),
{
    Error::FileNotFound(file_path)
}

/// Wraps an XML parsing error, with its message, as a crate error.
pub fn from_parse_error(e: &crate::parse::Error) -> (r: Error)
    ensures
        (r matches Error::ParseError(m) && m@ == "Invalid Epub Format: "@
            + crate::message::spec_message(e@)),
{
    let mut s = String::from_str("Invalid Epub Format: ");
    let msg = e.message();
    s.append(msg.as_str());
    Error::ParseError(s)
}

/// Builds a generic parse error.
pub fn to_parse_error() -> (r: Error)
    ensures
        (r matches Error::ParseError(m) && m@ == "Invalid Epub Format"@),
{
    Error::ParseError(String::from_str("Invalid Epub Format"))
}

} // verus!
