//! The parser of lines that carry no structure.

use vstd::prelude::*;
use crate::error::{ErrorKind, LogAnalyzerError};
use crate::ingest::{LogLine, LogLineView};
use crate::json::Metadata;
use crate::parser::{empty_record, LogParser, ParsedLog, ParsedLogView};
use crate::time::Timestamp;

verus! {

/// Takes a whole line as the message of a record.
#[derive(Clone, Copy, Debug, PartialEq, Eq)]
pub struct PlainTextParser;

impl PlainTextParser {
    /// The parser. It holds nothing.
    pub fn new() -> Self {
        PlainTextParser
    }

    /// The record of a plain line parsed at `now`.
    pub open spec fn record_of(log_line: LogLineView, now: Timestamp) -> ParsedLogView {
        ParsedLogView { timestamp: Some(now), message: log_line.content, ..empty_record() }
    }

}

impl LogParser for PlainTextParser {
    /// Every line gives a record: the message is the line's content, the
    /// timestamp is `now`, and there is neither a level nor any metadata.
    open spec fn outcome(&self, log_line: LogLineView, now: Timestamp) -> Result<
        ParsedLogView,
        ErrorKind,
    > {
        Ok(PlainTextParser::record_of(log_line, now))
    }

    fn parse_at(&self, log_line: LogLine, now: Timestamp) -> (r: Result<
        ParsedLog,
        LogAnalyzerError,
    >) {
        Ok(
            ParsedLog {
                timestamp: Some(now),
                level: None,
                message: log_line.content,
                metadata: Metadata::new(),
            },
        )
    }

    fn parse(&self, log_line: LogLine) -> (r: Result<ParsedLog, LogAnalyzerError>) {
        let now = Timestamp::now();
        self.parse_at(log_line, now)
    }
}

} // verus!
