//! What a worker stands for, and the state that follows a state on an
//! event.

use vstd::prelude::*;
use crate::engine::Phase;
use crate::ingest::network_source::lemma_extract_shrinks;
use crate::ingest::{Framed, LogLineView, SourceModel, SourceState, SourceView};
use crate::parser::{LogParser, ParsedLogView};
use crate::time::Timestamp;

verus! {

/// What an `Event` stands for.
pub enum EventView {
    Start,
    Opened,
    OpenFailed,
    Line(Seq<char>),
    EndOfStream,
    ReadFailed,
    Sent,
    SendFailed,
    Closed,
}

/// What an `Action` stands for.
pub enum ActionView {
    Open,
    Read,
    Emit(ParsedLogView),
    Close,
    Stop,
}

/// What a `Worker` stands for.
pub struct WorkerView {
    /// The worker's source.
    pub source: SourceModel,
    /// Where the worker stands.
    pub phase: Phase,
    /// The framed lines that are not parsed yet, oldest first.
    pub batch: Seq<LogLineView>,
    /// The parsed records that are not sent yet, oldest first.
    pub outbox: Seq<ParsedLogView>,
    /// How many lines are gathered before they are parsed.
    pub batch_size: nat,
    /// Every line that was parsed so far, with the instant at which it
    /// was, in the order in which the lines were framed.
    pub parsed: Seq<(LogLineView, Timestamp)>,
    /// Every record that was handed on to be sent so far, in order.
    pub sent: Seq<ParsedLogView>,
}

/// Each of `lines` with the instant `now`.
pub open spec fn stamped(lines: Seq<LogLineView>, now: Timestamp) -> Seq<(LogLineView, Timestamp)> {
    lines.map_values(|l: LogLineView| (l, now))
}

/// The records of the lines that `parser` accepts, each line at its own
/// instant, in the order of the lines.
pub open spec fn records_of<P: LogParser>(parser: &P, lines: Seq<(LogLineView, Timestamp)>) -> Seq<
    ParsedLogView,
>
    decreases lines.len(),
{
    if lines.len() == 0 {
        Seq::empty()
    } else {
        let before = records_of(parser, lines.drop_last());
        match parser.outcome(lines.last().0, lines.last().1) {
            Ok(record) => before.push(record),
            Err(_) => before,
        }
    }
}

/// The records of the lines that `parser` accepts at `now`, in the order
/// of the lines.
pub open spec fn parsed_all<P: LogParser>(parser: &P, lines: Seq<LogLineView>, now: Timestamp)
    -> Seq<ParsedLogView>
    decreases lines.len(),
{
    if lines.len() == 0 {
        Seq::empty()
    } else {
        let before = parsed_all(parser, lines.drop_last(), now);
        match parser.outcome(lines.last(), now) {
            Ok(record) => before.push(record),
            Err(_) => before,
        }
    }
}

impl WorkerView {
    /// The worker with `buffer` as the buffer of its source.
    pub open spec fn with_buffer(self, buffer: Seq<char>) -> WorkerView {
        WorkerView {
            source: self.source.with(SourceView { buffer, ..self.source.inner }),
            ..self
        }
    }

    /// The line that the source frames from `content` at `now`.
    pub open spec fn line(self, content: Seq<char>, now: Timestamp) -> LogLineView {
        LogLineView { content, source: self.source.inner.label, timestamp: now }
    }

    /// The worker after `line` joined its batch: a batch that has reached
    /// its size is parsed at `now`, its records join the outbox in the
    /// order of their lines, and the batch begins anew.
    pub open spec fn absorb<P: LogParser>(self, line: LogLineView, parser: &P, now: Timestamp)
        -> WorkerView {
        let batch = self.batch.push(line);
        if batch.len() >= self.batch_size {
            WorkerView {
                batch: Seq::empty(),
                outbox: self.outbox + parsed_all(parser, batch, now),
                parsed: self.parsed + stamped(batch, now),
                ..self
            }
        } else {
            WorkerView { batch, ..self }
        }
    }

    /// The worker on its way out: it drops what it holds, and its source
    /// is to be closed.
    pub open spec fn leave(self) -> (WorkerView, ActionView) {
        (
            WorkerView {
                phase: Phase::Closing,
                batch: Seq::empty(),
                outbox: Seq::empty(),
                ..self
            },
            ActionView::Close,
        )
    }

    /// The worker at its end without a source to close.
    pub open spec fn stop(self) -> (WorkerView, ActionView) {
        (
            WorkerView { phase: Phase::Done, batch: Seq::empty(), outbox: Seq::empty(), ..self },
            ActionView::Stop,
        )
    }

    /// What a worker that is free to go on does next: it sends the oldest
    /// record of its outbox; with an empty outbox it takes the records
    /// that its source has framed already, one by one; with none left it
    /// reads.
    pub open spec fn settle<P: LogParser>(self, parser: &P, now: Timestamp) -> (
        WorkerView,
        ActionView,
    )
        decreases self.source.inner.buffer.len(),
    {
        if self.outbox.len() > 0 {
            (
                WorkerView {
                    phase: Phase::Emitting,
                    outbox: self.outbox.drop_first(),
                    sent: self.sent.push(self.outbox[0]),
                    ..self
                },
                ActionView::Emit(self.outbox[0]),
            )
        } else if self.source.inner.state != SourceState::Open {
            self.leave()
        } else {
            let framed = self.source.pending();
            match framed.content {
                Some(content) => {
                    proof {
                        lemma_extract_shrinks(self.source.inner.buffer);
                    }
                    self.with_buffer(framed.buffer).absorb(
                        self.line(content, now),
                        parser,
                        now,
                    ).settle(parser, now)
                },
                None => (WorkerView { phase: Phase::Reading, ..self }, ActionView::Read),
            }
        }
    }

    /// What a worker does after its source made `framed` of an event.
    pub open spec fn take<P: LogParser>(self, framed: Framed, parser: &P, now: Timestamp) -> (
        WorkerView,
        ActionView,
    ) {
        let kept = self.with_buffer(framed.buffer);
        match framed.content {
            Some(content) => kept.absorb(self.line(content, now), parser, now).settle(parser, now),
            None => kept.settle(parser, now),
        }
    }

    /// The worker with its source closed.
    pub open spec fn closed(self) -> WorkerView {
        if self.source.inner.state == SourceState::Unopened {
            self
        } else {
            WorkerView {
                source: self.source.with(
                    SourceView {
                        state: SourceState::Closed,
                        buffer: Seq::empty(),
                        ..self.source.inner
                    },
                ),
                ..self
            }
        }
    }

    /// The state that follows `self` on `event` at `now`, and what is to
    /// be done next.
    pub open spec fn next<P: LogParser>(self, event: EventView, parser: &P, now: Timestamp) -> (
        WorkerView,
        ActionView,
    ) {
        match self.phase {
            Phase::Idle => match event {
                EventView::Start => (
                    WorkerView { phase: Phase::Opening, ..self },
                    ActionView::Open,
                ),
                _ => self.stop(),
            },
            Phase::Opening => match event {
                EventView::Opened => (WorkerView {
                    phase: Phase::Reading,
                    source: self.source.with(
                        SourceView {
                            state: SourceState::Open,
                            buffer: Seq::empty(),
                            ..self.source.inner
                        },
                    ),
                    ..self
                }).settle(parser, now),
                _ => self.stop(),
            },
            Phase::Reading => if self.source.inner.state != SourceState::Open {
                self.leave()
            } else {
                match event {
                    EventView::Line(text) => self.take(self.source.line(text), parser, now),
                    EventView::EndOfStream => {
                        let framed = self.source.end();
                        if framed.content is Some {
                            self.take(framed, parser, now)
                        } else {
                            self.leave()
                        }
                    },
                    _ => self.leave(),
                }
            },
            Phase::Emitting => match event {
                EventView::Sent => (WorkerView { phase: Phase::Reading, ..self }).settle(
                    parser,
                    now,
                ),
                _ => self.leave(),
            },
            Phase::Closing => ((WorkerView { phase: Phase::Done, ..self }).closed(), ActionView::Stop),
            Phase::Done => (self, ActionView::Stop),
        }
    }
}

impl WorkerView {
    /// The most lines or records that the worker may hold: its batch
    /// size, and one where that is nothing.
    pub open spec fn capacity(self) -> nat {
        if self.batch_size == 0 {
            1
        } else {
            self.batch_size
        }
    }

    /// How many lines and records are on their way through the worker:
    /// those of the batch, those of the outbox, and the record that is
    /// being sent.
    pub open spec fn in_flight(self) -> nat {
        self.batch.len() + self.outbox.len() + if self.phase == Phase::Emitting {
            1nat
        } else {
            0nat
        }
    }

    /// Whether the worker holds no more than it may: the batch stays below
    /// the capacity, records wait only while one is being sent and the
    /// batch is empty, and all that is on its way stays within the
    /// capacity.
    pub open spec fn bounded(self) -> bool {
        &&& self.batch.len() < self.capacity()
        &&& self.in_flight() <= self.capacity()
        &&& self.outbox.len() > 0 ==> self.batch.len() == 0
        &&& self.phase != Phase::Emitting ==> self.outbox.len() == 0
    }

    /// Whether the worker, free to go on, holds no more than it may.
    pub open spec fn settled(self) -> bool {
        &&& self.batch.len() < self.capacity()
        &&& self.batch.len() + self.outbox.len() <= self.capacity()
        &&& self.outbox.len() > 0 ==> self.batch.len() == 0
    }
}

impl WorkerView {
    /// Whether the worker has left its loop.
    pub open spec fn has_left(self) -> bool {
        self.phase == Phase::Closing || self.phase == Phase::Done
    }

    /// Whether the records go out in the order in which their lines came
    /// in: the records that were handed on, and behind them those that
    /// wait, are the records of the parsed lines in the order of the
    /// lines. A worker that has left keeps no record waiting, and what it
    /// handed on is the beginning of those records.
    pub open spec fn in_order<P: LogParser>(self, parser: &P) -> bool {
        if self.has_left() {
            self.outbox.len() == 0 && self.sent.is_prefix_of(records_of(parser, self.parsed))
        } else {
            self.sent + self.outbox == records_of(parser, self.parsed)
        }
    }
}

/// The worker that a source begins with.
pub open spec fn fresh_worker(source: SourceModel, batch_size: nat) -> WorkerView {
    WorkerView {
        source,
        phase: Phase::Idle,
        batch: Seq::empty(),
        outbox: Seq::empty(),
        batch_size,
        parsed: Seq::empty(),
        sent: Seq::empty(),
    }
}

/// The state of a worker after a run of events, each with the instant at
/// which it was taken, oldest first.
pub open spec fn after_run<P: LogParser>(
    w: WorkerView,
    events: Seq<(EventView, Timestamp)>,
    parser: &P,
) -> WorkerView
    decreases events.len(),
{
    if events.len() == 0 {
        w
    } else {
        after_run(w, events.drop_last(), parser).next(events.last().0, parser, events.last().1).0
    }
}

} // verus!
