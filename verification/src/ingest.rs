//! Sources of log lines and the record that they frame.

use vstd::prelude::*;
use crate::error::LogAnalyzerError;
use crate::ingest::file_source::{file_frame, FileLogSource};
use crate::ingest::network_source::{
    network_flush, network_frame, network_pending, NetworkLogSource,
};
use crate::time::Timestamp;

pub mod file_source;
pub mod lines;
pub mod network_source;
pub mod stream;

verus! {

/// One framed record as a source hands it on.
#[derive(Clone, Debug, PartialEq, Eq)]
pub struct LogLine {
    /// The record's text, without leading or trailing whitespace.
    pub content: String,
    /// Where the record came from.
    pub source: String,
    /// When the record was framed.
    pub timestamp: Timestamp,
}

/// What a `LogLine` stands for.
pub struct LogLineView {
    pub content: Seq<char>,
    pub source: Seq<char>,
    pub timestamp: Timestamp,
}

impl View for LogLine {
    type V = LogLineView;

    open spec fn view(&self) -> LogLineView {
        LogLineView { content: self.content@, source: self.source@, timestamp: self.timestamp }
    }
}

/// Where a source stands in its life.
#[derive(Clone, Copy, Debug, PartialEq, Eq, Structural)]
pub enum SourceState {
    /// Not opened yet.
    Unopened,
    /// Opened, and not closed since.
    Open,
    /// Closed.
    Closed,
}

/// What a source stands for.
pub struct SourceView {
    /// Where the source stands in its life.
    pub state: SourceState,
    /// The text that was read and is not framed yet.
    pub buffer: Seq<char>,
    /// The label that the source gives to its records.
    pub label: Seq<char>,
}

/// What a source makes of an event: the buffer that it keeps and the
/// content of the record that it hands on, where there is one.
pub struct Framed {
    pub buffer: Seq<char>,
    pub content: Option<Seq<char>>,
}

/// Whether a source answered an event as `framed` says: with a failure
/// and no change where it is not open, else with the record and the
/// buffer of `framed`, labelled by the source and stamped with `now`.
pub open spec fn answered(
    before: SourceView,
    after: SourceView,
    r: Result<Option<LogLine>, LogAnalyzerError>,
    framed: Framed,
    now: Timestamp,
) -> bool {
    if before.state != SourceState::Open {
        after == before && r == Err::<Option<LogLine>, LogAnalyzerError>(
            LogAnalyzerError::SourceNotInitialized,
        )
    } else {
        &&& after == (SourceView { buffer: framed.buffer, ..before })
        &&& match framed.content {
            Some(content) => r matches Ok(Some(line)) && line@ == (LogLineView {
                content,
                source: before.label,
                timestamp: now,
            }),
            None => r == Ok::<Option<LogLine>, LogAnalyzerError>(None),
        }
    }
}

/// Whether a source was closed as it should be: a source that was never
/// opened fails and stays as it is; any other is closed and keeps no
/// buffer.
pub open spec fn closed(before: SourceView, after: SourceView, r: Result<(), LogAnalyzerError>)
    -> bool {
    if before.state == SourceState::Unopened {
        after == before && r == Err::<(), LogAnalyzerError>(LogAnalyzerError::SourceNotInitialized)
    } else {
        after == (SourceView { state: SourceState::Closed, buffer: Seq::empty(), ..before })
            && r == Ok::<(), LogAnalyzerError>(())
    }
}

/// A source of either kind.
#[derive(Debug)]
pub enum Source {
    File(FileLogSource),
    Network(NetworkLogSource),
}

/// What a `Source` stands for.
pub struct SourceModel {
    /// Whether the source reads a network stream; else it reads a file.
    pub network: bool,
    /// The source's own state.
    pub inner: SourceView,
}

impl View for Source {
    type V = SourceModel;

    open spec fn view(&self) -> SourceModel {
        match self {
            Source::File(s) => SourceModel { network: false, inner: s@ },
            Source::Network(s) => SourceModel { network: true, inner: s@ },
        }
    }
}

impl SourceModel {
    /// The source with `inner` as its own state.
    pub open spec fn with(self, inner: SourceView) -> SourceModel {
        SourceModel { inner, ..self }
    }

    /// What the source finds in its buffer before it reads on.
    pub open spec fn pending(self) -> Framed {
        if self.network {
            network_pending(self.inner.buffer)
        } else {
            Framed { buffer: self.inner.buffer, content: None }
        }
    }

    /// What the source makes of a line.
    pub open spec fn line(self, line: Seq<char>) -> Framed {
        if self.network {
            network_frame(self.inner.buffer, line)
        } else {
            file_frame(self.inner.buffer, line)
        }
    }

    /// What the source makes of the end of its stream.
    pub open spec fn end(self) -> Framed {
        if self.network {
            network_flush(self.inner.buffer)
        } else {
            Framed { buffer: self.inner.buffer, content: None }
        }
    }
}

impl Source {
    /// Where the source stands in its life.
    pub fn state(&self) -> (state: SourceState)
        ensures
            state == self@.inner.state,
    {
        match self {
            Source::File(s) => s.state(),
            Source::Network(s) => s.state(),
        }
    }

    /// Notes that the source was opened.
    pub fn opened(&mut self)
        ensures
            final(self)@ == old(self)@.with(
                SourceView { state: SourceState::Open, buffer: Seq::empty(), ..old(self)@.inner },
            ),
    {
        match self {
            Source::File(s) => s.opened(),
            Source::Network(s) => s.opened(),
        }
    }

    /// Looks for a record in what was read already.
    pub fn pending(&mut self, now: Timestamp) -> (r: Result<Option<LogLine>, LogAnalyzerError>)
        ensures
            final(self)@.network == old(self)@.network,
            answered(old(self)@.inner, final(self)@.inner, r, old(self)@.pending(), now),
    {
        match self {
            Source::File(s) => s.end_of_stream(now),
            Source::Network(s) => s.pending(now),
        }
    }

    /// Takes one line read from the source, with its line ending.
    pub fn accept_line(&mut self, line: &str, now: Timestamp) -> (r: Result<
        Option<LogLine>,
        LogAnalyzerError,
    >)
        ensures
            final(self)@.network == old(self)@.network,
            answered(old(self)@.inner, final(self)@.inner, r, old(self)@.line(line@), now),
    {
        match self {
            Source::File(s) => s.accept_line(line, now),
            Source::Network(s) => s.accept_line(line, now),
        }
    }

    /// Takes the end of the stream.
    pub fn end_of_stream(&mut self, now: Timestamp) -> (r: Result<Option<LogLine>, LogAnalyzerError>)
        ensures
            final(self)@.network == old(self)@.network,
            answered(old(self)@.inner, final(self)@.inner, r, old(self)@.end(), now),
    {
        match self {
            Source::File(s) => s.end_of_stream(now),
            Source::Network(s) => s.end_of_stream(now),
        }
    }

    /// Closes the source and drops its buffer.
    pub fn close(&mut self) -> (r: Result<(), LogAnalyzerError>)
        ensures
            final(self)@.network == old(self)@.network,
            closed(old(self)@.inner, final(self)@.inner, r),
    {
        match self {
            Source::File(s) => s.close(),
            Source::Network(s) => s.close(),
        }
    }
}

} // verus!
