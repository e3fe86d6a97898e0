//! What holds of every worker: it stays within its bounds, and its
//! records go out in the order in which their lines came in.

use vstd::prelude::*;
use crate::engine::model::{
    after_run, fresh_worker, parsed_all, records_of, stamped, ActionView, EventView, WorkerView,
};
use crate::engine::Phase;
use crate::ingest::network_source::lemma_extract_shrinks;
use crate::ingest::{Framed, LogLineView, SourceModel, SourceState, SourceView};
use crate::parser::LogParser;
use crate::time::Timestamp;

verus! {

/// Parsing gives at most one record for each line.
pub proof fn lemma_parsed_all_len<P: LogParser>(parser: &P, lines: Seq<LogLineView>, now: Timestamp)
    ensures
        parsed_all(parser, lines, now).len() <= lines.len(),
    decreases lines.len(),
{
    if lines.len() > 0 {
        lemma_parsed_all_len(parser, lines.drop_last(), now);
    }
}

/// A line that joins a worker without waiting records leaves it within
/// its bounds.
pub proof fn lemma_absorb_settled<P: LogParser>(
    w: WorkerView,
    line: LogLineView,
    parser: &P,
    now: Timestamp,
)
    requires
        w.settled(),
        w.outbox.len() == 0,
    ensures
        w.absorb(line, parser, now).settled(),
        w.absorb(line, parser, now).batch_size == w.batch_size,
{
    lemma_parsed_all_len(parser, w.batch.push(line), now);
}

/// A worker within its bounds that goes on stays within them.
pub proof fn lemma_settle_bounded<P: LogParser>(w: WorkerView, parser: &P, now: Timestamp)
    requires
        w.settled(),
    ensures
        w.settle(parser, now).0.bounded(),
        w.settle(parser, now).0.batch_size == w.batch_size,
    decreases w.source.inner.buffer.len(),
{
    if w.outbox.len() > 0 {
    } else if w.source.inner.state != SourceState::Open {
    } else {
        let framed = w.source.pending();
        match framed.content {
            Some(content) => {
                lemma_extract_shrinks(w.source.inner.buffer);
                let kept = w.with_buffer(framed.buffer);
                lemma_absorb_settled(kept, w.line(content, now), parser, now);
                lemma_settle_bounded(kept.absorb(w.line(content, now), parser, now), parser, now);
            },
            None => {},
        }
    }
}

/// A worker that reads next has no record waiting.
pub proof fn lemma_settle_reads_with_empty_outbox<P: LogParser>(
    w: WorkerView,
    parser: &P,
    now: Timestamp,
)
    ensures
        w.settle(parser, now).1 is Read ==> w.settle(parser, now).0.outbox.len() == 0,
    decreases w.source.inner.buffer.len(),
{
    if w.outbox.len() > 0 {
    } else if w.source.inner.state != SourceState::Open {
    } else {
        let framed = w.source.pending();
        match framed.content {
            Some(content) => {
                lemma_extract_shrinks(w.source.inner.buffer);
                lemma_settle_reads_with_empty_outbox(
                    w.with_buffer(framed.buffer).absorb(w.line(content, now), parser, now),
                    parser,
                    now,
                );
            },
            None => {},
        }
    }
}

/// A reading worker within its bounds that takes what its source framed
/// stays within them.
pub proof fn lemma_take_bounded<P: LogParser>(
    w: WorkerView,
    framed: Framed,
    parser: &P,
    now: Timestamp,
)
    requires
        w.bounded(),
        w.phase == Phase::Reading,
    ensures
        w.take(framed, parser, now).0.bounded(),
        w.take(framed, parser, now).0.batch_size == w.batch_size,
        w.take(framed, parser, now).1 is Read ==> w.take(framed, parser, now).0.outbox.len() == 0,
{
    let kept = w.with_buffer(framed.buffer);
    match framed.content {
        Some(content) => {
            lemma_absorb_settled(kept, w.line(content, now), parser, now);
            lemma_settle_bounded(kept.absorb(w.line(content, now), parser, now), parser, now);
            lemma_settle_reads_with_empty_outbox(
                kept.absorb(w.line(content, now), parser, now),
                parser,
                now,
            );
        },
        None => {
            lemma_settle_bounded(kept, parser, now);
            lemma_settle_reads_with_empty_outbox(kept, parser, now);
        },
    }
}

/// Backpressure: a worker never holds more than its capacity. Whatever
/// happens outside, a worker within its bounds stays within them: the
/// lines of its batch, the records of its outbox and the record that is
/// being sent are never more than the batch size together, and no line is
/// read while a record waits to be sent.
pub proof fn lemma_next_bounded<P: LogParser>(
    w: WorkerView,
    event: EventView,
    parser: &P,
    now: Timestamp,
)
    requires
        w.bounded(),
    ensures
        w.next(event, parser, now).0.bounded(),
        w.next(event, parser, now).0.batch_size == w.batch_size,
        w.next(event, parser, now).1 is Read ==> w.next(event, parser, now).0.outbox.len() == 0,
{
    match w.phase {
        Phase::Idle => {},
        Phase::Opening => {
            match event {
                EventView::Opened => {
                    let opened = WorkerView {
                        phase: Phase::Reading,
                        source: w.source.with(
                            SourceView {
                                state: SourceState::Open,
                                buffer: Seq::empty(),
                                ..w.source.inner
                            },
                        ),
                        ..w
                    };
                    lemma_settle_bounded(opened, parser, now);
                    lemma_settle_reads_with_empty_outbox(opened, parser, now);
                },
                _ => {},
            }
        },
        Phase::Reading => {
            if w.source.inner.state == SourceState::Open {
                match event {
                    EventView::Line(text) => {
                        lemma_take_bounded(w, w.source.line(text), parser, now);
                    },
                    EventView::EndOfStream => {
                        if w.source.end().content is Some {
                            lemma_take_bounded(w, w.source.end(), parser, now);
                        }
                    },
                    _ => {},
                }
            }
        },
        Phase::Emitting => {
            match event {
                EventView::Sent => {
                    let free = WorkerView { phase: Phase::Reading, ..w };
                    lemma_settle_bounded(free, parser, now);
                    lemma_settle_reads_with_empty_outbox(free, parser, now);
                },
                _ => {},
            }
        },
        Phase::Closing => {},
        Phase::Done => {},
    }
}

/// The records of two runs of lines are the records of the first and,
/// behind them, the records of the second.
pub proof fn lemma_records_of_add<P: LogParser>(
    parser: &P,
    a: Seq<(LogLineView, Timestamp)>,
    b: Seq<(LogLineView, Timestamp)>,
)
    ensures
        records_of(parser, a + b) == records_of(parser, a) + records_of(parser, b),
    decreases b.len(),
{
    if b.len() == 0 {
        assert(a + b == a);
        assert(records_of(parser, a) + records_of(parser, b) == records_of(parser, a));
    } else {
        assert((a + b).drop_last() == a + b.drop_last());
        assert((a + b).last() == b.last());
        lemma_records_of_add(parser, a, b.drop_last());
        let before = records_of(parser, a) + records_of(parser, b.drop_last());
        match parser.outcome(b.last().0, b.last().1) {
            Ok(record) => {
                assert(before.push(record) == records_of(parser, a) + records_of(
                    parser,
                    b.drop_last(),
                ).push(record));
            },
            Err(_) => {},
        }
    }
}

/// The records of lines that are parsed at one instant.
pub proof fn lemma_records_of_stamped<P: LogParser>(
    parser: &P,
    lines: Seq<LogLineView>,
    now: Timestamp,
)
    ensures
        records_of(parser, stamped(lines, now)) == parsed_all(parser, lines, now),
    decreases lines.len(),
{
    if lines.len() > 0 {
        assert(stamped(lines, now).drop_last() == stamped(lines.drop_last(), now));
        lemma_records_of_stamped(parser, lines.drop_last(), now);
    }
}

/// A line that joins a worker keeps the records in the order of the lines.
pub proof fn lemma_absorb_in_order<P: LogParser>(
    w: WorkerView,
    line: LogLineView,
    parser: &P,
    now: Timestamp,
)
    requires
        w.sent + w.outbox == records_of(parser, w.parsed),
    ensures
        w.absorb(line, parser, now).sent + w.absorb(line, parser, now).outbox == records_of(
            parser,
            w.absorb(line, parser, now).parsed,
        ),
        w.absorb(line, parser, now).sent == w.sent,
        w.parsed.is_prefix_of(w.absorb(line, parser, now).parsed),
{
    let batch = w.batch.push(line);
    if batch.len() >= w.batch_size {
        lemma_records_of_add(parser, w.parsed, stamped(batch, now));
        lemma_records_of_stamped(parser, batch, now);
        assert(w.sent + (w.outbox + parsed_all(parser, batch, now)) == (w.sent + w.outbox)
            + parsed_all(parser, batch, now));
    }
}

/// A worker that goes on keeps the records in the order of the lines,
/// and hands on the oldest waiting record or none.
pub proof fn lemma_settle_in_order<P: LogParser>(w: WorkerView, parser: &P, now: Timestamp)
    requires
        w.sent + w.outbox == records_of(parser, w.parsed),
        !w.has_left(),
    ensures
        w.settle(parser, now).0.in_order(parser),
        w.parsed.is_prefix_of(w.settle(parser, now).0.parsed),
        match w.settle(parser, now).1 {
            ActionView::Emit(record) => w.settle(parser, now).0.sent == w.sent.push(record),
            _ => w.settle(parser, now).0.sent == w.sent,
        },
    decreases w.source.inner.buffer.len(),
{
    if w.outbox.len() > 0 {
        assert(w.sent.push(w.outbox[0]) + w.outbox.drop_first() == w.sent + w.outbox);
    } else if w.source.inner.state != SourceState::Open {
        assert(w.sent + w.outbox == w.sent);
    } else {
        let framed = w.source.pending();
        match framed.content {
            Some(content) => {
                lemma_extract_shrinks(w.source.inner.buffer);
                let kept = w.with_buffer(framed.buffer);
                let joined = kept.absorb(w.line(content, now), parser, now);
                lemma_absorb_in_order(kept, w.line(content, now), parser, now);
                lemma_settle_in_order(joined, parser, now);
            },
            None => {},
        }
    }
}

/// A reading worker that takes what its source framed keeps the records
/// in the order of the lines.
pub proof fn lemma_take_in_order<P: LogParser>(
    w: WorkerView,
    framed: Framed,
    parser: &P,
    now: Timestamp,
)
    requires
        w.sent + w.outbox == records_of(parser, w.parsed),
        !w.has_left(),
    ensures
        w.take(framed, parser, now).0.in_order(parser),
        w.parsed.is_prefix_of(w.take(framed, parser, now).0.parsed),
        match w.take(framed, parser, now).1 {
            ActionView::Emit(record) => w.take(framed, parser, now).0.sent == w.sent.push(record),
            _ => w.take(framed, parser, now).0.sent == w.sent,
        },
{
    let kept = w.with_buffer(framed.buffer);
    match framed.content {
        Some(content) => {
            lemma_absorb_in_order(kept, w.line(content, now), parser, now);
            lemma_settle_in_order(kept.absorb(w.line(content, now), parser, now), parser, now);
        },
        None => {
            lemma_settle_in_order(kept, parser, now);
        },
    }
}

/// Order preservation: whatever happens outside, the records of a worker
/// go out in the order in which their lines were framed. Each step
/// leaves the parsed lines and the records handed on as they were or adds
/// to their ends; a record that is handed on is the oldest that waited;
/// and all that was handed on stays the beginning of the records of the
/// parsed lines, in the order of the lines.
pub proof fn lemma_next_in_order<P: LogParser>(
    w: WorkerView,
    event: EventView,
    parser: &P,
    now: Timestamp,
)
    requires
        w.in_order(parser),
    ensures
        w.next(event, parser, now).0.in_order(parser),
        w.parsed.is_prefix_of(w.next(event, parser, now).0.parsed),
        match w.next(event, parser, now).1 {
            ActionView::Emit(record) => w.next(event, parser, now).0.sent == w.sent.push(record),
            _ => w.next(event, parser, now).0.sent == w.sent,
        },
{
    match w.phase {
        Phase::Idle => {
            assert(w.sent.is_prefix_of(w.sent + w.outbox));
        },
        Phase::Opening => {
            match event {
                EventView::Opened => {
                    let opened = WorkerView {
                        phase: Phase::Reading,
                        source: w.source.with(
                            SourceView {
                                state: SourceState::Open,
                                buffer: Seq::empty(),
                                ..w.source.inner
                            },
                        ),
                        ..w
                    };
                    lemma_settle_in_order(opened, parser, now);
                },
                _ => {
                    assert(w.sent.is_prefix_of(w.sent + w.outbox));
                },
            }
        },
        Phase::Reading => {
            assert(w.sent.is_prefix_of(w.sent + w.outbox));
            if w.source.inner.state == SourceState::Open {
                match event {
                    EventView::Line(text) => {
                        lemma_take_in_order(w, w.source.line(text), parser, now);
                    },
                    EventView::EndOfStream => {
                        if w.source.end().content is Some {
                            lemma_take_in_order(w, w.source.end(), parser, now);
                        }
                    },
                    _ => {},
                }
            }
        },
        Phase::Emitting => {
            assert(w.sent.is_prefix_of(w.sent + w.outbox));
            match event {
                EventView::Sent => {
                    lemma_settle_in_order(WorkerView { phase: Phase::Reading, ..w }, parser, now);
                },
                _ => {},
            }
        },
        Phase::Closing => {},
        Phase::Done => {},
    }
}

/// A worker that has not started holds nothing and has sent nothing.
pub proof fn lemma_fresh_worker<P: LogParser>(source: SourceModel, batch_size: nat, parser: &P)
    ensures
        fresh_worker(source, batch_size).bounded(),
        fresh_worker(source, batch_size).in_order(parser),
{
    let w = fresh_worker(source, batch_size);
    assert(w.sent + w.outbox == records_of(parser, w.parsed));
}

/// Whatever happens to a worker from its beginning, it stays within its
/// bounds, and all that it has handed on is the beginning of the records
/// of its parsed lines, in the order in which the lines were framed.
pub proof fn lemma_every_run<P: LogParser>(
    source: SourceModel,
    batch_size: nat,
    events: Seq<(EventView, Timestamp)>,
    parser: &P,
)
    ensures
        after_run(fresh_worker(source, batch_size), events, parser).bounded(),
        after_run(fresh_worker(source, batch_size), events, parser).in_order(parser),
        after_run(fresh_worker(source, batch_size), events, parser).sent.is_prefix_of(
            records_of(parser, after_run(fresh_worker(source, batch_size), events, parser).parsed),
        ),
        after_run(fresh_worker(source, batch_size), events, parser).batch_size == batch_size,
    decreases events.len(),
{
    let first = fresh_worker(source, batch_size);
    if events.len() == 0 {
        lemma_fresh_worker(source, batch_size, parser);
    } else {
        lemma_every_run(source, batch_size, events.drop_last(), parser);
        let before = after_run(first, events.drop_last(), parser);
        lemma_next_bounded(before, events.last().0, parser, events.last().1);
        lemma_next_in_order(before, events.last().0, parser, events.last().1);
    }
    let last = after_run(first, events, parser);
    if !last.has_left() {
        assert(last.sent.is_prefix_of(last.sent + last.outbox));
    }
}

} // verus!
