//! The errors of reading and writing the wire format.

use crate::text::concat_str;
use vstd::prelude::*;

verus! {

/// Why reading from a byte source stopped short.
#[derive(Debug, Clone, Copy, PartialEq, Eq)]
pub enum IoErrorKind {
    /// The bytes ran out before the value was complete.
    UnexpectedEof,
}

/// The kind of a [`ReadingError`], without its message.
#[derive(Debug, Clone, Copy, PartialEq, Eq)]
pub enum ReadErrorKind {
    Io,
    Utf8,
    Serde,
    CleanEof,
    Incomplete,
    TooLarge,
    Message,
}

/// An error while reading a value of the wire format.
#[derive(Debug)]
pub enum ReadingError {
    IoError(IoErrorKind),
    Utf8Error(std::string::FromUtf8Error),
    Serde(String),
    CleanEOF(String),
    Incomplete(String),
    TooLarge(String),
    Message(String),
}

impl ReadingError {
    /// The kind of this error.
    pub open spec fn kind(&self) -> ReadErrorKind {
        match self {
            ReadingError::IoError(_) => ReadErrorKind::Io,
            ReadingError::Utf8Error(_) => ReadErrorKind::Utf8,
            ReadingError::Serde(_) => ReadErrorKind::Serde,
            ReadingError::CleanEOF(_) => ReadErrorKind::CleanEof,
            ReadingError::Incomplete(_) => ReadErrorKind::Incomplete,
            ReadingError::TooLarge(_) => ReadErrorKind::TooLarge,
            ReadingError::Message(_) => ReadErrorKind::Message,
        }
    }
}

/// The text of std's error for input that ended too early.
pub open spec fn eof_text() -> Seq<char> {
    "failed to fill whole buffer"@
}

/// Calls `ToString::to_string` on the error of `String::from_utf8`, whose
/// text std does not document in full.
#[verifier::external_body]
fn utf8_error_text(e: &std::string::FromUtf8Error) -> (r: String) {
    e.to_string()
}

impl ReadingError {
    /// The text of the error, as it is shown.
    pub fn describe(&self) -> (r: String)
        ensures
            self matches ReadingError::IoError(_) ==> r@ == "IO error: "@ + eof_text(),
            self matches ReadingError::Utf8Error(_) ==> "utf8 decode error: "@.is_prefix_of(r@),
            self matches ReadingError::Serde(m) ==> r@ == "serde failure: "@ + m@,
            self matches ReadingError::CleanEOF(m) ==> r@ == "EOF, Tried to read "@ + m@
                + " but No bytes left to consume"@,
            self matches ReadingError::Incomplete(m) ==> r@ == "incomplete: "@ + m@,
            self matches ReadingError::TooLarge(m) ==> r@ == "too large: "@ + m@,
            self matches ReadingError::Message(m) ==> r@ == m@,
    {
        match self {
            ReadingError::IoError(_) => concat_str("IO error: ".to_owned(), "failed to fill whole buffer"),
            ReadingError::Utf8Error(e) => {
                let text = utf8_error_text(e);
                let r = concat_str("utf8 decode error: ".to_owned(), text.as_str());
                proof {
                    assert("utf8 decode error: "@ =~= r@.take("utf8 decode error: "@.len() as int));
                }
                r
            },
            ReadingError::Serde(m) => concat_str("serde failure: ".to_owned(), m.as_str()),
            ReadingError::CleanEOF(m) => {
                let head = concat_str("EOF, Tried to read ".to_owned(), m.as_str());
                concat_str(head, " but No bytes left to consume")
            },
            ReadingError::Incomplete(m) => concat_str("incomplete: ".to_owned(), m.as_str()),
            ReadingError::TooLarge(m) => concat_str("too large: ".to_owned(), m.as_str()),
            ReadingError::Message(m) => m.clone(),
        }
    }
}

/// An error while writing a value of the wire format.
#[derive(Debug)]
pub enum WritingError {
    IoError(IoErrorKind),
    Serde(String),
    Message(String),
}

impl WritingError {
    /// The text of the error, as it is shown.
    pub fn describe(&self) -> (r: String)
        ensures
            self matches WritingError::IoError(_) ==> r@ == "IO error: "@ + eof_text(),
            self matches WritingError::Serde(m) ==> r@ == "Serde failure: "@ + m@,
            self matches WritingError::Message(m) ==> r@ == "Failed to serialize packet: "@ + m@,
    {
        match self {
            WritingError::IoError(_) => concat_str("IO error: ".to_owned(), "failed to fill whole buffer"),
            WritingError::Serde(m) => concat_str("Serde failure: ".to_owned(), m.as_str()),
            WritingError::Message(m) => concat_str(
                "Failed to serialize packet: ".to_owned(),
                m.as_str(),
            ),
        }
    }
}

/// The error for input that ended too early.
pub fn eof_error() -> (e: ReadingError)
    ensures
        e.kind() == ReadErrorKind::Io,
{
    ReadingError::IoError(IoErrorKind::UnexpectedEof)
}

} // verus!
