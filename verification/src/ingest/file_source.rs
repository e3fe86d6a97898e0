//! Framing of JSON values read line by line from a file.

use vstd::prelude::*;
use vstd::string::StringExecFns;
use crate::error::LogAnalyzerError;
use crate::ingest::{answered, closed, Framed, LogLine, SourceState, SourceView};
use crate::json::{is_json, is_valid_json};
use crate::text::{trim, trimmed};
use crate::time::Timestamp;

verus! {

/// The framer of a file source: the lines read since the last record.
#[derive(Debug)]
pub struct FileLogSource {
    path: String,
    state: SourceState,
    buffer: String,
}

impl View for FileLogSource {
    type V = SourceView;

    closed spec fn view(&self) -> SourceView {
        SourceView { state: self.state, buffer: self.buffer@, label: self.path@ }
    }
}

/// What a file source makes of a line: it adds the line to its buffer, and
/// where the buffer is one JSON value now, hands the trimmed buffer on and
/// begins anew.
pub open spec fn file_frame(buffer: Seq<char>, line: Seq<char>) -> Framed {
    let text = buffer + line;
    if is_json(text) {
        Framed { buffer: Seq::empty(), content: Some(trim(text)) }
    } else {
        Framed { buffer: text, content: None }
    }
}

impl FileLogSource {
    /// A source for the file at `path`, not opened yet.
    pub fn new(path: String) -> (source: FileLogSource)
        ensures
            source@ == (SourceView {
                state: SourceState::Unopened,
                buffer: Seq::empty(),
                label: path@,
            }),
    {
        FileLogSource { path, state: SourceState::Unopened, buffer: String::new() }
    }

    /// The path of the file.
    pub fn path(&self) -> (path: &String)
        ensures
            path@ == self@.label,
    {
        &self.path
    }

    /// Where the source stands in its life.
    pub fn state(&self) -> (state: SourceState)
        ensures
            state == self@.state,
    {
        self.state
    }

    /// The text that was read and is not framed yet.
    pub fn buffer(&self) -> (buffer: &String)
        ensures
            buffer@ == self@.buffer,
    {
        &self.buffer
    }

    /// Notes that the file was opened. The buffer begins empty.
    pub fn opened(&mut self)
        ensures
            final(self)@ == (SourceView {
                state: SourceState::Open,
                buffer: Seq::empty(),
                ..old(self)@
            }),
    {
        self.state = SourceState::Open;
        self.buffer = String::new();
    }

    /// Takes one line read from the file, with its line ending, at the
    /// instant `now`.
    pub fn accept_line(&mut self, line: &str, now: Timestamp) -> (r: Result<
        Option<LogLine>,
        LogAnalyzerError,
    >)
        ensures
            answered(old(self)@, final(self)@, r, file_frame(old(self)@.buffer, line@), now),
    {
        match self.state {
            SourceState::Open => {},
            _ => {
                return Err(LogAnalyzerError::SourceNotInitialized);
            },
        }
        self.buffer.append(line);
        if is_valid_json(self.buffer.as_str()) {
            let content = trimmed(self.buffer.as_str());
            self.buffer = String::new();
            Ok(Some(LogLine { content, source: self.path.clone(), timestamp: now }))
        } else {
            Ok(None)
        }
    }

    /// Takes the end of the file: a buffer that is no record yet is not
    /// handed on, and the source stays as it is.
    pub fn end_of_stream(&mut self, now: Timestamp) -> (r: Result<Option<LogLine>, LogAnalyzerError>)
        ensures
            answered(
                old(self)@,
                final(self)@,
                r,
                Framed { buffer: old(self)@.buffer, content: None },
                now,
            ),
    {
        match self.state {
            SourceState::Open => Ok(None),
            _ => Err(LogAnalyzerError::SourceNotInitialized),
        }
    }

    /// Closes the source and drops its buffer.
    pub fn close(&mut self) -> (r: Result<(), LogAnalyzerError>)
        ensures
            closed(old(self)@, final(self)@, r),
    {
        match self.state {
            SourceState::Unopened => Err(LogAnalyzerError::SourceNotInitialized),
            _ => {
                self.state = SourceState::Closed;
                self.buffer = String::new();
                Ok(())
            },
        }
    }
}

} // verus!
