//! The error taxonomy of discovery, and the text of each error.

use vstd::prelude::*;

verus! {

/// Everything that discovery can report instead of a list of tabs.
///
/// The payload of a variant is the text of its cause; `MultipleFailures` holds
/// the composed text of the failures it stands for.
#[derive(Debug)]
pub enum Error {
    /// The configuration root is missing or cannot be reached; the payload
    /// names what was looked for.
    ConfigRootNotFound(String),
    /// A directory or a file could not be read.
    Io(String),
    /// The compression framing of a recovery file is broken.
    DecompressionFailure(String),
    /// The session document is not JSON, does not have the expected shape,
    /// or selects a history entry that does not exist.
    MalformedSession(String),
    /// No recovery file was found anywhere.
    NoCandidatesFound,
    /// Two or more candidate files failed; the payload lists each failure,
    /// tagged with its position in discovery order.
    MultipleFailures(String),
}

/// Result of the library's fallible functions.
pub type FFResult<T> = Result<T, Error>;

/// The mathematical value of an [`Error`].
pub enum ErrorView {
    ConfigRootNotFound(Seq<char>),
    Io(Seq<char>),
    DecompressionFailure(Seq<char>),
    MalformedSession(Seq<char>),
    NoCandidatesFound,
    MultipleFailures(Seq<char>),
}

impl View for Error {
    type V = ErrorView;

    open spec fn view(&self) -> ErrorView {
        match self {
            Error::ConfigRootNotFound(s) => ErrorView::ConfigRootNotFound(s@),
            Error::Io(s) => ErrorView::Io(s@),
            Error::DecompressionFailure(s) => ErrorView::DecompressionFailure(s@),
            Error::MalformedSession(s) => ErrorView::MalformedSession(s@),
            Error::NoCandidatesFound => ErrorView::NoCandidatesFound,
            Error::MultipleFailures(s) => ErrorView::MultipleFailures(s@),
        }
    }
}

impl ErrorView {
    /// The text that describes the error: a prefix that names its kind,
    /// followed by the cause.
    pub open spec fn message(self) -> Seq<char> {
        match self {
            ErrorView::ConfigRootNotFound(s) => "Firefox data dir not found: "@ + s,
            ErrorView::Io(s) => "I/O error: "@ + s,
            ErrorView::DecompressionFailure(s) => "lz4 error: "@ + s,
            ErrorView::MalformedSession(s) => "json error: "@ + s,
            ErrorView::NoCandidatesFound => "Firefox data dir not found: recovery.json*"@,
            ErrorView::MultipleFailures(s) => "multiple errors: "@ + s,
        }
    }
}

impl Error {
    /// The text that describes the error.
    pub fn message(&self) -> (text: String)
        ensures
            text@ == self@.message(),
    {
        match self {
            Error::ConfigRootNotFound(s) => String::from_str("Firefox data dir not found: ").concat(
                s.as_str(),
            ),
            Error::Io(s) => String::from_str("I/O error: ").concat(s.as_str()),
            Error::DecompressionFailure(s) => String::from_str("lz4 error: ").concat(s.as_str()),
            Error::MalformedSession(s) => String::from_str("json error: ").concat(s.as_str()),
            Error::NoCandidatesFound => String::from_str(
                "Firefox data dir not found: recovery.json*",
            ),
            Error::MultipleFailures(s) => String::from_str("multiple errors: ").concat(s.as_str()),
        }
    }
}

} // verus!
