//! The uniform record that parsers produce, and what a parser is.

use vstd::prelude::*;
use crate::error::{ErrorKind, LogAnalyzerError};
use crate::ingest::{LogLine, LogLineView};
use crate::json::{Fields, Metadata};
use crate::time::Timestamp;

pub mod json;
pub mod plain_text;
pub mod registry;

verus! {

/// How severe a record is.
#[derive(Clone, Copy, Debug, PartialEq, Eq, Structural)]
pub enum Level {
    Info,
    Error,
    Warn,
}

/// A parsed log record.
#[derive(Clone, Debug, PartialEq, Eq)]
pub struct ParsedLog {
    /// When the record was written, or where it says nothing, framed.
    pub timestamp: Option<Timestamp>,
    /// The record's level, where it names a known one.
    pub level: Option<Level>,
    /// The record's message.
    pub message: String,
    /// Every field of the record that has no place of its own above.
    pub metadata: Metadata,
}

/// What a `ParsedLog` stands for.
pub struct ParsedLogView {
    pub timestamp: Option<Timestamp>,
    pub level: Option<Level>,
    pub message: Seq<char>,
    pub metadata: Fields,
}

impl View for ParsedLog {
    type V = ParsedLogView;

    open spec fn view(&self) -> ParsedLogView {
        ParsedLogView {
            timestamp: self.timestamp,
            level: self.level,
            message: self.message@,
            metadata: self.metadata@,
        }
    }
}

/// The record with nothing in it.
pub open spec fn empty_record() -> ParsedLogView {
    ParsedLogView {
        timestamp: None,
        level: None,
        message: Seq::empty(),
        metadata: Seq::empty(),
    }
}

impl Default for ParsedLog {
    fn default() -> (log: ParsedLog)
        ensures
            log@ == empty_record(),
    {
        ParsedLog { timestamp: None, level: None, message: String::new(), metadata: Metadata::new() }
    }
}

impl ParsedLog {
    /// A record that holds `message` and was written at `now`.
    pub fn new_at(message: String, now: Timestamp) -> (log: ParsedLog)
        ensures
            log@ == (ParsedLogView { timestamp: Some(now), message: message@, ..empty_record() }),
    {
        ParsedLog { timestamp: Some(now), level: None, message, metadata: Metadata::new() }
    }

    /// A record that holds `message` and is stamped with the current time.
    pub fn new(message: String) -> (log: ParsedLog)
        ensures
            log.timestamp is Some,
            log@ == (ParsedLogView {
                timestamp: log.timestamp,
                message: message@,
                ..empty_record()
            }),
    {
        let now = Timestamp::now();
        ParsedLog::new_at(message, now)
    }

    /// The record with its level set to `level`.
    pub fn with_level(self, level: Level) -> (log: ParsedLog)
        ensures
            log@ == (ParsedLogView { level: Some(level), ..self@ }),
    {
        let mut log = self;
        log.level = Some(level);
        log
    }

    /// The rank of the record's level: the lower, the more severe.
    pub open spec fn severity(level: Option<Level>) -> u8 {
        match level {
            Some(Level::Error) => 2,
            Some(Level::Warn) => 3,
            Some(Level::Info) => 4,
            None => 7,
        }
    }

    /// The rank of the record's level: 2 for an error, 3 for a warning,
    /// 4 for information and 7 where the record has no level.
    pub fn severity_level(&self) -> (rank: u8)
        ensures
            rank == ParsedLog::severity(self.level),
    {
        match self.level {
            Some(Level::Error) => 2,
            Some(Level::Warn) => 3,
            Some(Level::Info) => 4,
            None => 7,
        }
    }
}

/// Whether `r` is what `outcome` says: the record that it names, or a
/// failure of the kind that it names.
pub open spec fn agrees(
    outcome: Result<ParsedLogView, ErrorKind>,
    r: Result<ParsedLog, LogAnalyzerError>,
) -> bool {
    match outcome {
        Ok(record) => r matches Ok(log) && log@ == record,
        Err(kind) => r matches Err(e) && e.kind() == kind,
    }
}

/// A transformer from framed lines to records.
pub trait LogParser {
    /// What the parser makes of `log_line` at the instant `now`.
    spec fn outcome(&self, log_line: LogLineView, now: Timestamp) -> Result<
        ParsedLogView,
        ErrorKind,
    >;

    /// Parses one line at the instant `now`.
    fn parse_at(&self, log_line: LogLine, now: Timestamp) -> (r: Result<
        ParsedLog,
        LogAnalyzerError,
    >)
        ensures
            agrees(self.outcome(log_line@, now), r),
    ;

    /// Parses one line at the current time.
    fn parse(&self, log_line: LogLine) -> (r: Result<ParsedLog, LogAnalyzerError>)
        ensures
            exists|now: Timestamp|
                now.secs >= 0 && agrees(#[trigger] self.outcome(log_line@, now), r),
    ;
}

/// A writer of records as text.
pub trait LogFormatter {
    /// The text of `log`.
    fn format(&self, log: &ParsedLog) -> String;
}

/// Writes records as JSON.
pub struct JsonFormatter;

/// Writes records as plain text.
pub struct PlainTextFormatter;

/// Writes records in the Common Event Format.
pub struct CEFFormatter;

} // verus!
