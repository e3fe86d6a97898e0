//! The failures that ingestion and parsing report.

use vstd::prelude::*;

verus! {

/// A failure of a source, a parser or the registry.
#[derive(Clone, Debug, PartialEq, Eq)]
pub enum LogAnalyzerError {
    /// The file system or a socket failed; the text is the cause.
    Io(String),
    /// A payload is not JSON; the text is the parser's message.
    Json(String),
    /// No registered parser handles the format of a line.
    ParserNotFound,
    /// A source was read or closed before it was opened.
    SourceNotInitialized,
    /// A parser refused the structure of a line; the text says why.
    LogFormatInvalid(String),
    /// The transport of a network source failed; the text is the cause.
    NetworkError(String),
}

/// The kinds of failure, without their texts.
pub enum ErrorKind {
    Io,
    Json,
    ParserNotFound,
    SourceNotInitialized,
    LogFormatInvalid,
    NetworkError,
}

impl LogAnalyzerError {
    /// The kind of the failure.
    pub open spec fn kind(self) -> ErrorKind {
        match self {
            LogAnalyzerError::Io(_) => ErrorKind::Io,
            LogAnalyzerError::Json(_) => ErrorKind::Json,
            LogAnalyzerError::ParserNotFound => ErrorKind::ParserNotFound,
            LogAnalyzerError::SourceNotInitialized => ErrorKind::SourceNotInitialized,
            LogAnalyzerError::LogFormatInvalid(_) => ErrorKind::LogFormatInvalid,
            LogAnalyzerError::NetworkError(_) => ErrorKind::NetworkError,
        }
    }
}

} // verus!
