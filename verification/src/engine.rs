//! The fan-in engine: one worker per source, each a state machine that
//! says what to do next and takes what came of it.

use std::collections::VecDeque;
use vstd::prelude::*;
use crate::analytics::{AnalyticsView, LogAnalytics};
use crate::engine::model::{
    fresh_worker, parsed_all, stamped, ActionView, EventView, WorkerView,
};
use crate::ingest::network_source::lemma_extract_shrinks;
use crate::ingest::{LogLine, LogLineView, Source, SourceModel};
use crate::parser::{LogParser, ParsedLog, ParsedLogView};
use crate::time::Timestamp;

pub mod laws;
pub mod model;

verus! {

/// How many lines a worker gathers before it parses them.
pub const DEFAULT_BATCH_SIZE: usize = 100;

/// How many records the channel to the consumer holds.
pub const DEFAULT_CHANNEL_CAPACITY: usize = 100;

/// The length of the analytics window in seconds.
pub const DEFAULT_WINDOW_SECONDS: i64 = 100;

/// What an engine is set up with.
#[derive(Clone, Copy, Debug, PartialEq, Eq, Structural)]
pub struct EngineConfig {
    /// How many records the channel to the consumer holds.
    pub output_channel_capacity: usize,
    /// How many lines a worker gathers before it parses them.
    pub batch_size: usize,
    /// The length of the analytics window in seconds.
    pub analytics_window_size_seconds: i64,
}

/// The configuration of an engine that is given none.
pub open spec fn default_config() -> EngineConfig {
    EngineConfig {
        output_channel_capacity: DEFAULT_CHANNEL_CAPACITY,
        batch_size: DEFAULT_BATCH_SIZE,
        analytics_window_size_seconds: DEFAULT_WINDOW_SECONDS,
    }
}

impl Default for EngineConfig {
    fn default() -> (config: EngineConfig)
        ensures
            config == default_config(),
    {
        EngineConfig {
            output_channel_capacity: DEFAULT_CHANNEL_CAPACITY,
            batch_size: DEFAULT_BATCH_SIZE,
            analytics_window_size_seconds: DEFAULT_WINDOW_SECONDS,
        }
    }
}

/// Where a worker stands.
#[derive(Clone, Copy, Debug, PartialEq, Eq, Structural)]
pub enum Phase {
    /// Not started.
    Idle,
    /// Waiting for its source to be opened.
    Opening,
    /// Waiting for a line.
    Reading,
    /// Waiting for a record to be sent.
    Emitting,
    /// Waiting for its source to be closed.
    Closing,
    /// At its end.
    Done,
}

/// What happened outside since the last step.
#[derive(Debug, PartialEq, Eq)]
pub enum Event {
    /// The worker was started.
    Start,
    /// The source was opened.
    Opened,
    /// The source could not be opened.
    OpenFailed,
    /// A line was read; it comes with its line ending.
    Line(String),
    /// The stream is at its end.
    EndOfStream,
    /// Reading failed.
    ReadFailed,
    /// The record was sent.
    Sent,
    /// The record could not be sent: the consumer is gone.
    SendFailed,
    /// The source was closed.
    Closed,
}

impl View for Event {
    type V = EventView;

    open spec fn view(&self) -> EventView {
        match self {
            Event::Start => EventView::Start,
            Event::Opened => EventView::Opened,
            Event::OpenFailed => EventView::OpenFailed,
            Event::Line(s) => EventView::Line(s@),
            Event::EndOfStream => EventView::EndOfStream,
            Event::ReadFailed => EventView::ReadFailed,
            Event::Sent => EventView::Sent,
            Event::SendFailed => EventView::SendFailed,
            Event::Closed => EventView::Closed,
        }
    }
}

/// What is to be done outside before the next step.
#[derive(Debug, PartialEq, Eq)]
pub enum Action {
    /// Open the source; answer with `Opened` or `OpenFailed`.
    Open,
    /// Read one line; answer with `Line`, `EndOfStream` or `ReadFailed`.
    Read,
    /// Update the analytics with the record, and send it to the consumer;
    /// answer with `Sent` or `SendFailed`.
    Emit(ParsedLog),
    /// Close the source; answer with `Closed`.
    Close,
    /// Nothing is left to do.
    Stop,
}

impl View for Action {
    type V = ActionView;

    open spec fn view(&self) -> ActionView {
        match self {
            Action::Open => ActionView::Open,
            Action::Read => ActionView::Read,
            Action::Emit(log) => ActionView::Emit(log@),
            Action::Close => ActionView::Close,
            Action::Stop => ActionView::Stop,
        }
    }
}

/// The state of the worker of one source.
pub struct Worker {
    source: Source,
    phase: Phase,
    batch: VecDeque<LogLine>,
    outbox: VecDeque<ParsedLog>,
    batch_size: usize,
    parsed: Ghost<Seq<(LogLineView, Timestamp)>>,
    sent: Ghost<Seq<ParsedLogView>>,
}

/// What each of `lines` stands for.
pub open spec fn lines_view(lines: Seq<LogLine>) -> Seq<LogLineView> {
    lines.map_values(|l: LogLine| l@)
}

/// What each of `records` stands for.
pub open spec fn records_view(records: Seq<ParsedLog>) -> Seq<ParsedLogView> {
    records.map_values(|r: ParsedLog| r@)
}

impl View for Worker {
    type V = WorkerView;

    closed spec fn view(&self) -> WorkerView {
        WorkerView {
            source: self.source@,
            phase: self.phase,
            batch: lines_view(self.batch@),
            outbox: records_view(self.outbox@),
            batch_size: self.batch_size as nat,
            parsed: self.parsed@,
            sent: self.sent@,
        }
    }
}

/// Parses the lines of `batch` at `now`, oldest first, and puts the
/// records of those that parse behind the records of `outbox`.
fn flush<P: LogParser>(
    batch: &mut VecDeque<LogLine>,
    outbox: &mut VecDeque<ParsedLog>,
    parser: &P,
    now: Timestamp,
)
    ensures
        final(batch)@.len() == 0,
        records_view(final(outbox)@) == records_view(old(outbox)@) + parsed_all(
            parser,
            lines_view(old(batch)@),
            now,
        ),
{
    let ghost full = lines_view(batch@);
    let ghost first = records_view(outbox@);
    let ghost mut done: int = 0;
    proof {
        assert(full.skip(0) == full);
        assert(full.take(0) == Seq::<LogLineView>::empty());
        assert(first + parsed_all(parser, full.take(0), now) == first);
    }
    while batch.len() > 0
        invariant
            0 <= done <= full.len(),
            lines_view(batch@) == full.skip(done),
            records_view(outbox@) == first + parsed_all(parser, full.take(done), now),
        decreases batch@.len(),
    {
        let ghost lines = batch@;
        let ghost records = outbox@;
        let line = batch.pop_front().unwrap();
        proof {
            assert(lines_view(lines).len() == lines.len());
            assert(full.skip(done).len() == full.len() - done);
            assert(lines_view(lines)[0] == line@);
            assert(full.skip(done)[0] == full[done]);
            assert(full.take(done + 1).drop_last() == full.take(done));
            assert(full.take(done + 1).last() == line@);
            assert forall|k: int| 0 <= k < batch@.len() implies lines_view(batch@)[k]
                == full.skip(done + 1)[k] by {
                assert(batch@[k] == lines[k + 1]);
                assert(lines_view(lines)[k + 1] == full.skip(done)[k + 1]);
            }
            assert(lines_view(batch@) =~= full.skip(done + 1));
        }
        match parser.parse_at(line, now) {
            Ok(record) => {
                outbox.push_back(record);
                proof {
                    assert(records_view(outbox@) =~= records_view(records).push(record@));
                    assert(records_view(outbox@) =~= first + parsed_all(
                        parser,
                        full.take(done + 1),
                        now,
                    ));
                }
            },
            Err(_) => {},
        }
        proof {
            done = done + 1;
        }
    }
    proof {
        assert(full.take(done) == full);
    }
}

impl Worker {
    /// A worker for `source` that has not started, and parses its lines
    /// in batches of `batch_size`.
    pub fn new(source: Source, batch_size: usize) -> (worker: Worker)
        ensures
            worker@ == (WorkerView {
                source: source@,
                phase: Phase::Idle,
                batch: Seq::empty(),
                outbox: Seq::empty(),
                batch_size: batch_size as nat,
                parsed: Seq::empty(),
                sent: Seq::empty(),
            }),
    {
        let worker = Worker {
            source,
            phase: Phase::Idle,
            batch: VecDeque::new(),
            outbox: VecDeque::new(),
            batch_size,
            parsed: Ghost(Seq::empty()),
            sent: Ghost(Seq::empty()),
        };
        proof {
            assert(lines_view(worker.batch@) =~= Seq::<LogLineView>::empty());
            assert(records_view(worker.outbox@) =~= Seq::<ParsedLogView>::empty());
        }
        worker
    }

    /// The worker's source.
    pub fn source(&self) -> (source: &Source)
        ensures
            source@ == self@.source,
    {
        &self.source
    }

    /// Where the worker stands.
    pub fn phase(&self) -> (phase: Phase)
        ensures
            phase == self@.phase,
    {
        self.phase
    }

    /// How many lines wait in the batch.
    pub fn batch_len(&self) -> (n: usize)
        ensures
            n == self@.batch.len(),
    {
        self.batch.len()
    }

    /// How many records wait in the outbox.
    pub fn outbox_len(&self) -> (n: usize)
        ensures
            n == self@.outbox.len(),
    {
        self.outbox.len()
    }

    fn absorb<P: LogParser>(&mut self, line: LogLine, parser: &P, now: Timestamp)
        ensures
            final(self)@ == old(self)@.absorb(line@, parser, now),
    {
        let ghost before = self.batch@;
        self.batch.push_back(line);
        proof {
            assert(lines_view(self.batch@) =~= lines_view(before).push(line@));
        }
        if self.batch.len() >= self.batch_size {
            let ghost lines = lines_view(self.batch@);
            flush(&mut self.batch, &mut self.outbox, parser, now);
            self.parsed = Ghost(self.parsed@ + stamped(lines, now));
            proof {
                assert(lines_view(self.batch@) =~= Seq::<LogLineView>::empty());
            }
        }
    }

    fn leave(&mut self) -> (action: Action)
        ensures
            (final(self)@, action@) == old(self)@.leave(),
    {
        self.phase = Phase::Closing;
        self.batch.clear();
        self.outbox.clear();
        proof {
            assert(lines_view(self.batch@) =~= Seq::<LogLineView>::empty());
            assert(records_view(self.outbox@) =~= Seq::<ParsedLogView>::empty());
        }
        Action::Close
    }

    fn stop(&mut self) -> (action: Action)
        ensures
            (final(self)@, action@) == old(self)@.stop(),
    {
        self.phase = Phase::Done;
        self.batch.clear();
        self.outbox.clear();
        proof {
            assert(lines_view(self.batch@) =~= Seq::<LogLineView>::empty());
            assert(records_view(self.outbox@) =~= Seq::<ParsedLogView>::empty());
        }
        Action::Stop
    }

    fn settle<P: LogParser>(&mut self, parser: &P, now: Timestamp) -> (action: Action)
        ensures
            (final(self)@, action@) == old(self)@.settle(parser, now),
    {
        loop
            invariant
                self@.settle(parser, now) == old(self)@.settle(parser, now),
            decreases self@.source.inner.buffer.len(),
        {
            if self.outbox.len() > 0 {
                let ghost records = self.outbox@;
                let record = self.outbox.pop_front().unwrap();
                self.phase = Phase::Emitting;
                self.sent = Ghost(self.sent@.push(record@));
                proof {
                    assert(records_view(records)[0] == record@);
                    assert(records_view(self.outbox@) =~= records_view(records).drop_first());
                }
                return Action::Emit(record);
            }
            let ghost before = self@;
            match self.source.pending(now) {
                Ok(Some(line)) => {
                    proof {
                        lemma_extract_shrinks(before.source.inner.buffer);
                        assert(self@ == before.with_buffer(before.source.pending().buffer));
                    }
                    self.absorb(line, parser, now);
                },
                Ok(None) => {
                    self.phase = Phase::Reading;
                    proof {
                        assert(self@.source == before.source);
                    }
                    return Action::Read;
                },
                Err(_) => {
                    return self.leave();
                },
            }
        }
    }

    /// Takes what happened outside at the instant `now` and says what is
    /// to be done next. `parser` parses the lines of a full batch.
    pub fn step<P: LogParser>(&mut self, event: Event, parser: &P, now: Timestamp) -> (action:
        Action)
        ensures
            (final(self)@, action@) == old(self)@.next(event@, parser, now),
    {
        match self.phase {
            Phase::Idle => match event {
                Event::Start => {
                    self.phase = Phase::Opening;
                    Action::Open
                },
                _ => self.stop(),
            },
            Phase::Opening => match event {
                Event::Opened => {
                    self.source.opened();
                    self.phase = Phase::Reading;
                    self.settle(parser, now)
                },
                _ => self.stop(),
            },
            Phase::Reading => match event {
                Event::Line(text) => {
                    let ghost before = self@;
                    match self.source.accept_line(text.as_str(), now) {
                        Ok(Some(line)) => {
                            proof {
                                assert(self@ == before.with_buffer(
                                    before.source.line(text@).buffer,
                                ));
                            }
                            self.absorb(line, parser, now);
                            self.settle(parser, now)
                        },
                        Ok(None) => {
                            proof {
                                assert(self@ == before.with_buffer(
                                    before.source.line(text@).buffer,
                                ));
                            }
                            self.settle(parser, now)
                        },
                        Err(_) => self.leave(),
                    }
                },
                Event::EndOfStream => {
                    let ghost before = self@;
                    match self.source.end_of_stream(now) {
                        Ok(Some(line)) => {
                            proof {
                                assert(self@ == before.with_buffer(before.source.end().buffer));
                            }
                            self.absorb(line, parser, now);
                            self.settle(parser, now)
                        },
                        Ok(None) => {
                            proof {
                                assert(self@ == before);
                            }
                            self.leave()
                        },
                        Err(_) => self.leave(),
                    }
                },
                _ => self.leave(),
            },
            Phase::Emitting => match event {
                Event::Sent => {
                    self.phase = Phase::Reading;
                    self.settle(parser, now)
                },
                _ => self.leave(),
            },
            Phase::Closing => {
                let _ = self.source.close();
                self.phase = Phase::Done;
                Action::Stop
            },
            Phase::Done => Action::Stop,
        }
    }
}

/// The sources that wait to be run, the parser that their workers share,
/// and the analytics that the emitted records feed.
pub struct Engine<P: LogParser> {
    sources: VecDeque<Source>,
    parser: P,
    analytics: LogAnalytics,
    config: EngineConfig,
}

impl<P: LogParser> Engine<P> {
    /// The sources that wait to be run, in the order in which they came.
    pub closed spec fn sources(&self) -> Seq<SourceModel> {
        self.sources@.map_values(|s: Source| s@)
    }

    /// The parser.
    pub closed spec fn parser_view(&self) -> P {
        self.parser
    }

    /// The analytics.
    pub closed spec fn analytics_view(&self) -> AnalyticsView {
        self.analytics@
    }

    /// What the engine is set up with.
    pub closed spec fn config_view(&self) -> EngineConfig {
        self.config
    }

    /// An engine around `parser` with the default configuration: no
    /// sources yet, and analytics that have seen nothing.
    pub fn new(parser: P) -> (engine: Engine<P>)
        ensures
            engine.sources() == Seq::<SourceModel>::empty(),
            engine.parser_view() == parser,
            engine.config_view() == default_config(),
            engine.analytics_view() == (AnalyticsView {
                window_size: DEFAULT_WINDOW_SECONDS as int,
                window_start: engine.analytics_view().window_start,
                error_counts: Map::empty(),
                user_activity: Map::empty(),
                resource_usage: Map::empty(),
            }),
    {
        Engine::with_config(parser, EngineConfig::default())
    }

    /// An engine around `parser` that is set up with `config`: no sources
    /// yet, and analytics over a window of the configured length that have
    /// seen nothing.
    pub fn with_config(parser: P, config: EngineConfig) -> (engine: Engine<P>)
        ensures
            engine.sources() == Seq::<SourceModel>::empty(),
            engine.parser_view() == parser,
            engine.config_view() == config,
            engine.analytics_view() == (AnalyticsView {
                window_size: config.analytics_window_size_seconds as int,
                window_start: engine.analytics_view().window_start,
                error_counts: Map::empty(),
                user_activity: Map::empty(),
                resource_usage: Map::empty(),
            }),
    {
        let engine = Engine {
            sources: VecDeque::new(),
            parser,
            analytics: LogAnalytics::new(config.analytics_window_size_seconds),
            config,
        };
        proof {
            assert(engine.sources() =~= Seq::<SourceModel>::empty());
        }
        engine
    }

    /// What the engine is set up with.
    pub fn config(&self) -> (config: EngineConfig)
        ensures
            config == self.config_view(),
    {
        self.config
    }

    /// Adds `source` behind the sources that wait already.
    pub fn add_source(&mut self, source: Source)
        ensures
            final(self).sources() == old(self).sources().push(source@),
            final(self).parser_view() == old(self).parser_view(),
            final(self).analytics_view() == old(self).analytics_view(),
            final(self).config_view() == old(self).config_view(),
    {
        self.sources.push_back(source);
        proof {
            assert(self.sources() =~= old(self).sources().push(source@));
        }
    }

    /// Takes every waiting source and makes one worker for each, in the
    /// order of the sources. Each worker has not started, and parses its
    /// lines in batches of the configured size. No source waits afterwards.
    pub fn run(&mut self) -> (workers: Vec<Worker>)
        ensures
            final(self).sources() == Seq::<SourceModel>::empty(),
            final(self).parser_view() == old(self).parser_view(),
            final(self).analytics_view() == old(self).analytics_view(),
            final(self).config_view() == old(self).config_view(),
            workers@.len() == old(self).sources().len(),
            forall|i: int|
                0 <= i < workers@.len() ==> (#[trigger] workers@[i])@ == fresh_worker(
                    old(self).sources()[i],
                    old(self).config_view().batch_size as nat,
                ),
    {
        let ghost all = self.sources();
        let mut workers: Vec<Worker> = Vec::new();
        while self.sources.len() > 0
            invariant
                self.parser_view() == old(self).parser_view(),
                self.analytics_view() == old(self).analytics_view(),
                self.config_view() == old(self).config_view(),
                all == old(self).sources(),
                workers@.len() + self.sources().len() == all.len(),
                self.sources() == all.skip(workers@.len() as int),
                forall|i: int|
                    0 <= i < workers@.len() ==> (#[trigger] workers@[i])@ == fresh_worker(
                        all[i],
                        self.config_view().batch_size as nat,
                    ),
            decreases self.sources@.len(),
        {
            let ghost waiting = self.sources@;
            let ghost made = workers@;
            let source = self.sources.pop_front().unwrap();
            proof {
                assert(self.sources().len() == self.sources@.len());
                assert(waiting.map_values(|s: Source| s@)[0] == source@);
                assert(all.skip(made.len() as int)[0] == all[made.len() as int]);
                assert forall|k: int| 0 <= k < self.sources@.len() implies self.sources()[k]
                    == all.skip(made.len() as int + 1)[k] by {
                    assert(self.sources@[k] == waiting[k + 1]);
                    assert(waiting.map_values(|s: Source| s@)[k + 1] == all.skip(
                        made.len() as int,
                    )[k + 1]);
                }
                assert(self.sources() =~= all.skip(made.len() as int + 1));
            }
            let worker = Worker::new(source, self.config.batch_size);
            workers.push(worker);
        }
        proof {
            assert(self.sources() =~= Seq::<SourceModel>::empty());
        }
        workers
    }

    /// The parser.
    pub fn parser(&self) -> (parser: &P)
        ensures
            *parser == self.parser_view(),
    {
        &self.parser
    }

    /// The analytics.
    pub fn analytics(&self) -> (analytics: &LogAnalytics)
        ensures
            analytics@ == self.analytics_view(),
    {
        &self.analytics
    }

    /// Processes `log` in the engine's analytics at the current time,
    /// where it can be processed; see `LogAnalytics::try_process_log`.
    pub fn record(&mut self, log: ParsedLog) -> (done: bool)
        ensures
            done == old(self).analytics_view().ready_for(log@),
            !done ==> final(self).analytics_view() == old(self).analytics_view(),
            done ==> exists|now: Timestamp|
                now.secs >= 0 && #[trigger] old(self).analytics_view().processed(log@, now)
                    == final(self).analytics_view(),
            final(self).sources() == old(self).sources(),
            final(self).parser_view() == old(self).parser_view(),
            final(self).config_view() == old(self).config_view(),
    {
        self.analytics.try_process_log(log)
    }

    /// The parser and the analytics of an engine that is taken apart.
    pub fn into_parts(self) -> (parts: (P, LogAnalytics))
        ensures
            parts.0 == self.parser_view(),
            parts.1@ == self.analytics_view(),
    {
        (self.parser, self.analytics)
    }
}

} // verus!
